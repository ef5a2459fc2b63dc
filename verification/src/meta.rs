//! The metadata block: a reserved top-level `sops` mapping entry holding
//! format version, timestamp, cleartext suffix, comment policy, threshold,
//! the encrypted digest, and the key groups with their wrapped key
//! material.

use vstd::prelude::*;
use crate::tree::{Node, NodeV, Scalar, ScalarV, MapItem, MapItemV, clone_bytes};
use crate::keysvc::{KeyKind, MasterKey, MasterKeyV};
use crate::b64::{b64_enc, b64_dec, b64_encode, b64_decode, lemma_b64_roundtrip};
use crate::error::Error;
use crate::bytes::bytes_eq;

verus! {

/// The document metadata.
pub struct Metadata {
    pub version: Vec<u8>,
    pub lastmodified: Vec<u8>,
    pub unencrypted_suffix: Vec<u8>,
    pub encrypted_comments: bool,
    pub shamir_threshold: u64,
    pub mac: Vec<u8>,
    pub groups: Vec<Vec<MasterKey>>,
}

/// Ghost metadata.
pub struct MetadataV {
    pub version: Seq<u8>,
    pub lastmodified: Seq<u8>,
    pub unencrypted_suffix: Seq<u8>,
    pub encrypted_comments: bool,
    pub shamir_threshold: int,
    pub mac: Seq<u8>,
    pub groups: Seq<Seq<MasterKeyV>>,
}

pub open spec fn group_view(g: Seq<MasterKey>) -> Seq<MasterKeyV> {
    Seq::new(g.len(), |i: int| g[i]@)
}

pub open spec fn groups_view(gs: Seq<Vec<MasterKey>>) -> Seq<Seq<MasterKeyV>> {
    Seq::new(gs.len(), |i: int| group_view(gs[i]@))
}

impl View for Metadata {
    type V = MetadataV;

    open spec fn view(&self) -> MetadataV {
        MetadataV {
            version: self.version@,
            lastmodified: self.lastmodified@,
            unencrypted_suffix: self.unencrypted_suffix@,
            encrypted_comments: self.encrypted_comments,
            shamir_threshold: self.shamir_threshold as int,
            mac: self.mac@,
            groups: groups_view(self.groups@),
        }
    }
}

/// `"sops"`.
pub open spec fn sops_key() -> Seq<u8> {
    seq![115u8, 111u8, 112u8, 115u8]
}

/// `"version"`.
pub open spec fn version_key() -> Seq<u8> {
    seq![118u8, 101u8, 114u8, 115u8, 105u8, 111u8, 110u8]
}

/// `"lastmodified"`.
pub open spec fn lastmodified_key() -> Seq<u8> {
    seq![108u8, 97u8, 115u8, 116u8, 109u8, 111u8, 100u8, 105u8, 102u8, 105u8, 101u8, 100u8]
}

/// `"unencrypted_suffix"`.
pub open spec fn suffix_key() -> Seq<u8> {
    seq![
        117u8, 110u8, 101u8, 110u8, 99u8, 114u8, 121u8, 112u8, 116u8, 101u8, 100u8, 95u8,
        115u8, 117u8, 102u8, 102u8, 105u8, 120u8,
    ]
}

/// `"encrypted_comments"`.
pub open spec fn comments_key() -> Seq<u8> {
    seq![
        101u8, 110u8, 99u8, 114u8, 121u8, 112u8, 116u8, 101u8, 100u8, 95u8, 99u8, 111u8,
        109u8, 109u8, 101u8, 110u8, 116u8, 115u8,
    ]
}

/// `"shamir_threshold"`.
pub open spec fn threshold_key() -> Seq<u8> {
    seq![
        115u8, 104u8, 97u8, 109u8, 105u8, 114u8, 95u8, 116u8, 104u8, 114u8, 101u8, 115u8,
        104u8, 111u8, 108u8, 100u8,
    ]
}

/// `"mac"`.
pub open spec fn mac_key() -> Seq<u8> {
    seq![109u8, 97u8, 99u8]
}

/// `"key_groups"`.
pub open spec fn groups_key() -> Seq<u8> {
    seq![107u8, 101u8, 121u8, 95u8, 103u8, 114u8, 111u8, 117u8, 112u8, 115u8]
}

/// `"kind"`.
pub open spec fn kind_key() -> Seq<u8> {
    seq![107u8, 105u8, 110u8, 100u8]
}

/// `"id"`.
pub open spec fn id_key() -> Seq<u8> {
    seq![105u8, 100u8]
}

/// `"enc"`.
pub open spec fn enc_key() -> Seq<u8> {
    seq![101u8, 110u8, 99u8]
}

/// `"created_at"`.
pub open spec fn created_key() -> Seq<u8> {
    seq![99u8, 114u8, 101u8, 97u8, 116u8, 101u8, 100u8, 95u8, 97u8, 116u8]
}

/// The backend name of a kind.
pub open spec fn kind_text(k: KeyKind) -> Seq<u8> {
    match k {
        KeyKind::Kms => seq![107u8, 109u8, 115u8],
        KeyKind::GcpKms => seq![103u8, 99u8, 112u8, 95u8, 107u8, 109u8, 115u8],
        KeyKind::Vault => seq![118u8, 97u8, 117u8, 108u8, 116u8],
        KeyKind::Pgp => seq![112u8, 103u8, 112u8],
        KeyKind::Age => seq![97u8, 103u8, 101u8],
        KeyKind::Local => seq![108u8, 111u8, 99u8, 97u8, 108u8],
    }
}

/// Reads a backend name.
pub open spec fn parse_kind(s: Seq<u8>) -> Option<KeyKind> {
    if s == kind_text(KeyKind::Kms) {
        Some(KeyKind::Kms)
    } else if s == kind_text(KeyKind::GcpKms) {
        Some(KeyKind::GcpKms)
    } else if s == kind_text(KeyKind::Vault) {
        Some(KeyKind::Vault)
    } else if s == kind_text(KeyKind::Pgp) {
        Some(KeyKind::Pgp)
    } else if s == kind_text(KeyKind::Age) {
        Some(KeyKind::Age)
    } else if s == kind_text(KeyKind::Local) {
        Some(KeyKind::Local)
    } else {
        None
    }
}

/// The tree form of one master-key entry.
pub open spec fn entry_node(e: MasterKeyV) -> NodeV {
    NodeV::Mapping(
        seq![
            MapItemV::Entry(kind_key(), NodeV::Scalar(ScalarV::Str(kind_text(e.kind)))),
            MapItemV::Entry(id_key(), NodeV::Scalar(ScalarV::Str(e.id))),
            MapItemV::Entry(enc_key(), NodeV::Scalar(ScalarV::Str(b64_enc(e.payload)))),
            MapItemV::Entry(created_key(), NodeV::Scalar(ScalarV::Str(e.created_at))),
        ],
    )
}

/// The tree form of one key group.
pub open spec fn group_node(g: Seq<MasterKeyV>) -> NodeV {
    NodeV::Sequence(Seq::new(g.len(), |i: int| entry_node(g[i])))
}

/// The tree form of the metadata block's value.  An absent digest (empty
/// `mac`) writes no `mac` entry.
pub open spec fn meta_node(m: MetadataV) -> NodeV {
    if m.mac.len() == 0 {
        NodeV::Mapping(
            seq![
                MapItemV::Entry(version_key(), NodeV::Scalar(ScalarV::Str(m.version))),
                MapItemV::Entry(
                    lastmodified_key(),
                    NodeV::Scalar(ScalarV::Str(m.lastmodified)),
                ),
                MapItemV::Entry(
                    suffix_key(),
                    NodeV::Scalar(ScalarV::Str(m.unencrypted_suffix)),
                ),
                MapItemV::Entry(
                    comments_key(),
                    NodeV::Scalar(ScalarV::Bool(m.encrypted_comments)),
                ),
                MapItemV::Entry(
                    threshold_key(),
                    NodeV::Scalar(ScalarV::Int(m.shamir_threshold)),
                ),
                MapItemV::Entry(
                    groups_key(),
                    NodeV::Sequence(
                        Seq::new(m.groups.len(), |i: int| group_node(m.groups[i])),
                    ),
                ),
            ],
        )
    } else {
        NodeV::Mapping(
            seq![
                MapItemV::Entry(version_key(), NodeV::Scalar(ScalarV::Str(m.version))),
                MapItemV::Entry(
                    lastmodified_key(),
                    NodeV::Scalar(ScalarV::Str(m.lastmodified)),
                ),
                MapItemV::Entry(
                    suffix_key(),
                    NodeV::Scalar(ScalarV::Str(m.unencrypted_suffix)),
                ),
                MapItemV::Entry(
                    comments_key(),
                    NodeV::Scalar(ScalarV::Bool(m.encrypted_comments)),
                ),
                MapItemV::Entry(
                    threshold_key(),
                    NodeV::Scalar(ScalarV::Int(m.shamir_threshold)),
                ),
                MapItemV::Entry(mac_key(), NodeV::Scalar(ScalarV::Str(m.mac))),
                MapItemV::Entry(
                    groups_key(),
                    NodeV::Sequence(
                        Seq::new(m.groups.len(), |i: int| group_node(m.groups[i])),
                    ),
                ),
            ],
        )
    }
}


pub fn key_sops() -> (r: Vec<u8>)
    ensures
        r@ == sops_key(),
{
    let r: Vec<u8> = vec![115, 111, 112, 115];
    proof {
        assert(r@ =~= sops_key());
    }
    r
}
fn key_version() -> (r: Vec<u8>)
    ensures
        r@ == version_key(),
{
    let r: Vec<u8> = vec![118, 101, 114, 115, 105, 111, 110];
    proof {
        assert(r@ =~= version_key());
    }
    r
}
fn key_lastmodified() -> (r: Vec<u8>)
    ensures
        r@ == lastmodified_key(),
{
    let r: Vec<u8> = vec![108, 97, 115, 116, 109, 111, 100, 105, 102, 105, 101, 100];
    proof {
        assert(r@ =~= lastmodified_key());
    }
    r
}
fn key_suffix() -> (r: Vec<u8>)
    ensures
        r@ == suffix_key(),
{
    let r: Vec<u8> = vec![117, 110, 101, 110, 99, 114, 121, 112, 116, 101, 100, 95, 115, 117, 102, 102, 105, 120];
    proof {
        assert(r@ =~= suffix_key());
    }
    r
}
fn key_comments() -> (r: Vec<u8>)
    ensures
        r@ == comments_key(),
{
    let r: Vec<u8> = vec![101, 110, 99, 114, 121, 112, 116, 101, 100, 95, 99, 111, 109, 109, 101, 110, 116, 115];
    proof {
        assert(r@ =~= comments_key());
    }
    r
}
fn key_threshold() -> (r: Vec<u8>)
    ensures
        r@ == threshold_key(),
{
    let r: Vec<u8> = vec![115, 104, 97, 109, 105, 114, 95, 116, 104, 114, 101, 115, 104, 111, 108, 100];
    proof {
        assert(r@ =~= threshold_key());
    }
    r
}
fn key_mac() -> (r: Vec<u8>)
    ensures
        r@ == mac_key(),
{
    let r: Vec<u8> = vec![109, 97, 99];
    proof {
        assert(r@ =~= mac_key());
    }
    r
}
fn key_groups() -> (r: Vec<u8>)
    ensures
        r@ == groups_key(),
{
    let r: Vec<u8> = vec![107, 101, 121, 95, 103, 114, 111, 117, 112, 115];
    proof {
        assert(r@ =~= groups_key());
    }
    r
}
fn key_kind() -> (r: Vec<u8>)
    ensures
        r@ == kind_key(),
{
    let r: Vec<u8> = vec![107, 105, 110, 100];
    proof {
        assert(r@ =~= kind_key());
    }
    r
}
fn key_id() -> (r: Vec<u8>)
    ensures
        r@ == id_key(),
{
    let r: Vec<u8> = vec![105, 100];
    proof {
        assert(r@ =~= id_key());
    }
    r
}
fn key_enc() -> (r: Vec<u8>)
    ensures
        r@ == enc_key(),
{
    let r: Vec<u8> = vec![101, 110, 99];
    proof {
        assert(r@ =~= enc_key());
    }
    r
}
fn key_created() -> (r: Vec<u8>)
    ensures
        r@ == created_key(),
{
    let r: Vec<u8> = vec![99, 114, 101, 97, 116, 101, 100, 95, 97, 116];
    proof {
        assert(r@ =~= created_key());
    }
    r
}
fn kind_text_of(k: KeyKind) -> (r: Vec<u8>)
    ensures
        r@ == kind_text(k),
{
    match k {
        KeyKind::Kms => {
            let r: Vec<u8> = vec![107, 109, 115];
            proof {
                assert(r@ =~= kind_text(k));
            }
            r
        },
        KeyKind::GcpKms => {
            let r: Vec<u8> = vec![103, 99, 112, 95, 107, 109, 115];
            proof {
                assert(r@ =~= kind_text(k));
            }
            r
        },
        KeyKind::Vault => {
            let r: Vec<u8> = vec![118, 97, 117, 108, 116];
            proof {
                assert(r@ =~= kind_text(k));
            }
            r
        },
        KeyKind::Pgp => {
            let r: Vec<u8> = vec![112, 103, 112];
            proof {
                assert(r@ =~= kind_text(k));
            }
            r
        },
        KeyKind::Age => {
            let r: Vec<u8> = vec![97, 103, 101];
            proof {
                assert(r@ =~= kind_text(k));
            }
            r
        },
        KeyKind::Local => {
            let r: Vec<u8> = vec![108, 111, 99, 97, 108];
            proof {
                assert(r@ =~= kind_text(k));
            }
            r
        },
    }
}

fn parse_kind_of(s: &Vec<u8>) -> (r: Option<KeyKind>)
    ensures
        r == parse_kind(s@),
{
    if bytes_eq(s, &kind_text_of(KeyKind::Kms)) {
        Some(KeyKind::Kms)
    } else if bytes_eq(s, &kind_text_of(KeyKind::GcpKms)) {
        Some(KeyKind::GcpKms)
    } else if bytes_eq(s, &kind_text_of(KeyKind::Vault)) {
        Some(KeyKind::Vault)
    } else if bytes_eq(s, &kind_text_of(KeyKind::Pgp)) {
        Some(KeyKind::Pgp)
    } else if bytes_eq(s, &kind_text_of(KeyKind::Age)) {
        Some(KeyKind::Age)
    } else if bytes_eq(s, &kind_text_of(KeyKind::Local)) {
        Some(KeyKind::Local)
    } else {
        proof {
            assert(parse_kind(s@) is None);
        }
        None
    }
}

/// Reads one master-key entry back out of its tree form.
pub open spec fn parse_entry(n: NodeV) -> Option<MasterKeyV> {
    match n {
        NodeV::Mapping(items) => {
            if items.len() == 4 {
                match (items[0], items[1], items[2], items[3]) {
                    (
                        MapItemV::Entry(k0, NodeV::Scalar(ScalarV::Str(kt))),
                        MapItemV::Entry(k1, NodeV::Scalar(ScalarV::Str(idv))),
                        MapItemV::Entry(k2, NodeV::Scalar(ScalarV::Str(ev))),
                        MapItemV::Entry(k3, NodeV::Scalar(ScalarV::Str(cr))),
                    ) => {
                        if k0 == kind_key() && k1 == id_key() && k2 == enc_key() && k3
                            == created_key() {
                            match (parse_kind(kt), b64_dec(ev)) {
                                (Some(kd), Some(pl)) => Some(
                                    MasterKeyV { kind: kd, id: idv, payload: pl, created_at: cr },
                                ),
                                _ => None,
                            }
                        } else {
                            None
                        }
                    },
                    _ => None,
                }
            } else {
                None
            }
        },
        _ => None,
    }
}

pub open spec fn parse_entries(ch: Seq<NodeV>) -> Option<Seq<MasterKeyV>>
    decreases ch.len(),
{
    if ch.len() == 0 {
        Some(Seq::empty())
    } else {
        match (parse_entries(ch.drop_last()), parse_entry(ch.last())) {
            (Some(pre), Some(e)) => Some(pre.push(e)),
            _ => None,
        }
    }
}

/// Reads one key group back out of its tree form.
pub open spec fn parse_group(n: NodeV) -> Option<Seq<MasterKeyV>> {
    match n {
        NodeV::Sequence(ch) => parse_entries(ch),
        _ => None,
    }
}

pub open spec fn parse_groups(ch: Seq<NodeV>) -> Option<Seq<Seq<MasterKeyV>>>
    decreases ch.len(),
{
    if ch.len() == 0 {
        Some(Seq::empty())
    } else {
        match (parse_groups(ch.drop_last()), parse_group(ch.last())) {
            (Some(pre), Some(g)) => Some(pre.push(g)),
            _ => None,
        }
    }
}

/// Reads the metadata block back out of its tree form, as this library
/// writes it.  A block without a `mac` entry is admitted — the digest is
/// then recorded as absent (empty), and only an unwaived verification
/// rejects the document.
pub open spec fn parse_meta(n: NodeV) -> Option<MetadataV> {
    match n {
        NodeV::Mapping(items) => {
            if items.len() == 6 {
                match (items[0], items[1], items[2], items[3], items[4], items[5]) {
                    (
                        MapItemV::Entry(k0, NodeV::Scalar(ScalarV::Str(ver))),
                        MapItemV::Entry(k1, NodeV::Scalar(ScalarV::Str(lm))),
                        MapItemV::Entry(k2, NodeV::Scalar(ScalarV::Str(sfx))),
                        MapItemV::Entry(k3, NodeV::Scalar(ScalarV::Bool(ec))),
                        MapItemV::Entry(k4, NodeV::Scalar(ScalarV::Int(th))),
                        MapItemV::Entry(k5, NodeV::Sequence(gch)),
                    ) => {
                        if k0 == version_key() && k1 == lastmodified_key() && k2
                            == suffix_key() && k3 == comments_key() && k4 == threshold_key()
                            && k5 == groups_key() && 0 <= th <= u64::MAX {
                            match parse_groups(gch) {
                                Some(gs) => Some(
                                    MetadataV {
                                        version: ver,
                                        lastmodified: lm,
                                        unencrypted_suffix: sfx,
                                        encrypted_comments: ec,
                                        shamir_threshold: th,
                                        mac: Seq::empty(),
                                        groups: gs,
                                    },
                                ),
                                None => None,
                            }
                        } else {
                            None
                        }
                    },
                    _ => None,
                }
            } else if items.len() == 7 {
                match (items[0], items[1], items[2], items[3], items[4], items[5], items[6]) {
                    (
                        MapItemV::Entry(k0, NodeV::Scalar(ScalarV::Str(ver))),
                        MapItemV::Entry(k1, NodeV::Scalar(ScalarV::Str(lm))),
                        MapItemV::Entry(k2, NodeV::Scalar(ScalarV::Str(sfx))),
                        MapItemV::Entry(k3, NodeV::Scalar(ScalarV::Bool(ec))),
                        MapItemV::Entry(k4, NodeV::Scalar(ScalarV::Int(th))),
                        MapItemV::Entry(k5, NodeV::Scalar(ScalarV::Str(mc))),
                        MapItemV::Entry(k6, NodeV::Sequence(gch)),
                    ) => {
                        if k0 == version_key() && k1 == lastmodified_key() && k2
                            == suffix_key() && k3 == comments_key() && k4 == threshold_key()
                            && k5 == mac_key() && k6 == groups_key() && 0 <= th <= u64::MAX {
                            match parse_groups(gch) {
                                Some(gs) => Some(
                                    MetadataV {
                                        version: ver,
                                        lastmodified: lm,
                                        unencrypted_suffix: sfx,
                                        encrypted_comments: ec,
                                        shamir_threshold: th,
                                        mac: mc,
                                        groups: gs,
                                    },
                                ),
                                None => None,
                            }
                        } else {
                            None
                        }
                    },
                    _ => None,
                }
            } else {
                None
            }
        },
        _ => None,
    }
}

fn str_entry(k: Vec<u8>, t: Vec<u8>) -> (r: MapItem)
    ensures
        r.deep_view() == MapItemV::Entry(k@, NodeV::Scalar(ScalarV::Str(t@))),
{
    MapItem::Entry(k, Node::Scalar(Scalar::Str(t)))
}

/// Builds the tree form of one master-key entry.
pub fn entry_to_node(e: &MasterKey) -> (r: Node)
    ensures
        r.deep_view() == entry_node(e@),
{
    let mut items: Vec<MapItem> = Vec::new();
    let it0 = str_entry(key_kind(), kind_text_of(e.kind));
    let ghost v0 = it0.deep_view();
    items.push(it0);
    let it1 = str_entry(key_id(), clone_bytes(&e.id));
    let ghost v1 = it1.deep_view();
    items.push(it1);
    let it2 = str_entry(key_enc(), b64_encode(&e.payload));
    let ghost v2 = it2.deep_view();
    items.push(it2);
    let it3 = str_entry(key_created(), clone_bytes(&e.created_at));
    let ghost v3 = it3.deep_view();
    items.push(it3);
    let r = Node::Mapping(items);
    proof {
        match r.deep_view() {
            NodeV::Mapping(iv) => {
                assert(iv =~= seq![v0, v1, v2, v3]);
                match entry_node(e@) {
                    NodeV::Mapping(sv) => {
                        assert(iv =~= sv);
                    },
                    _ => {
                        assert(false);
                    },
                }
            },
            _ => {
                assert(false);
            },
        }
    }
    r
}

/// Builds the tree form of one key group.
pub fn group_to_node(g: &Vec<MasterKey>) -> (r: Node)
    ensures
        r.deep_view() == group_node(group_view(g@)),
{
    let mut out: Vec<Node> = Vec::new();
    let mut i: usize = 0;
    while i < g.len()
        invariant
            0 <= i <= g@.len(),
            out@.len() == i,
            forall|j: int|
                0 <= j < i ==> (#[trigger] out@[j]).deep_view() == entry_node(g@[j]@),
        decreases g@.len() - i,
    {
        out.push(entry_to_node(&g[i]));
        i += 1;
    }
    let r = Node::Sequence(out);
    proof {
        match r.deep_view() {
            NodeV::Sequence(ov) => {
                match group_node(group_view(g@)) {
                    NodeV::Sequence(sv) => {
                        assert(forall|j: int|
                            0 <= j < g@.len() ==> #[trigger] sv[j] == entry_node(
                                group_view(g@)[j],
                            ));
                        assert(forall|j: int|
                            0 <= j < g@.len() ==> #[trigger] group_view(g@)[j] == g@[j]@);
                        assert(ov =~= sv);
                    },
                    _ => {
                        assert(false);
                    },
                }
            },
            _ => {
                assert(false);
            },
        }
    }
    r
}

/// Builds the tree form of the metadata block's value.
pub fn meta_to_node(m: &Metadata) -> (r: Node)
    requires
        m@.shamir_threshold <= i64::MAX,
    ensures
        r.deep_view() == meta_node(m@),
{
    let mut gout: Vec<Node> = Vec::new();
    let mut i: usize = 0;
    while i < m.groups.len()
        invariant
            0 <= i <= m.groups@.len(),
            gout@.len() == i,
            forall|j: int|
                0 <= j < i ==> (#[trigger] gout@[j]).deep_view() == group_node(
                    group_view(m.groups@[j]@),
                ),
        decreases m.groups@.len() - i,
    {
        gout.push(group_to_node(&m.groups[i]));
        i += 1;
    }
    let mut items: Vec<MapItem> = Vec::new();
    let it0 = str_entry(key_version(), clone_bytes(&m.version));
    let ghost v0 = it0.deep_view();
    items.push(it0);
    let it1 = str_entry(key_lastmodified(), clone_bytes(&m.lastmodified));
    let ghost v1 = it1.deep_view();
    items.push(it1);
    let it2 = str_entry(key_suffix(), clone_bytes(&m.unencrypted_suffix));
    let ghost v2 = it2.deep_view();
    items.push(it2);
    let it3 = MapItem::Entry(key_comments(), Node::Scalar(Scalar::Bool(m.encrypted_comments)));
    let ghost v3 = it3.deep_view();
    items.push(it3);
    let th: i64 = m.shamir_threshold as i64;
    let it4 = MapItem::Entry(key_threshold(), Node::Scalar(Scalar::Int(th)));
    let ghost v4 = it4.deep_view();
    items.push(it4);
    let has_mac = m.mac.len() > 0;
    let ghost v5 = MapItemV::Entry(mac_key(), NodeV::Scalar(ScalarV::Str(m@.mac)));
    if has_mac {
        let it5 = str_entry(key_mac(), clone_bytes(&m.mac));
        proof {
            assert(it5.deep_view() == v5);
        }
        items.push(it5);
    }
    let it6 = MapItem::Entry(key_groups(), Node::Sequence(gout));
    let ghost v6 = it6.deep_view();
    proof {
        match v6 {
            MapItemV::Entry(k6, NodeV::Sequence(gv)) => {
                assert(gv =~= Seq::new(
                    m@.groups.len(),
                    |j: int| group_node(m@.groups[j]),
                ));
            },
            _ => {
                assert(false);
            },
        }
    }
    items.push(it6);
    let r = Node::Mapping(items);
    proof {
        match r.deep_view() {
            NodeV::Mapping(iv) => {
                if has_mac {
                    assert(iv =~= seq![v0, v1, v2, v3, v4, v5, v6]);
                } else {
                    assert(iv =~= seq![v0, v1, v2, v3, v4, v6]);
                }
                match meta_node(m@) {
                    NodeV::Mapping(sv) => {
                        assert(iv =~= sv);
                    },
                    _ => {
                        assert(false);
                    },
                }
            },
            _ => {
                assert(false);
            },
        }
    }
    r
}

/// Reads one master-key entry; fails exactly where the ghost
/// [`parse_entry`] does.
pub fn entry_from_node(n: &Node) -> (r: Result<MasterKey, Error>)
    ensures
        (r is Ok) == (parse_entry(n.deep_view()) is Some),
        r matches Ok(e) ==> parse_entry(n.deep_view()) == Some(e@),
        r matches Err(er) ==> er == Error::ParseError,
{
    let items = match n {
        Node::Mapping(items) => items,
        _ => {
            return Err(Error::ParseError);
        },
    };
    proof {
        assert(n.deep_view() matches NodeV::Mapping(iv) && iv.len() == items@.len() && (
        forall|j: int| 0 <= j < items@.len() ==> iv[j] == items@[j].deep_view()));
    }
    if items.len() != 4 {
        return Err(Error::ParseError);
    }
    let kt = match &items[0] {
        MapItem::Entry(k, v) => match v {
            Node::Scalar(Scalar::Str(t)) => {
                if !bytes_eq(k, &key_kind()) {
                    return Err(Error::ParseError);
                }
                t
            },
            _ => {
                return Err(Error::ParseError);
            },
        },
        _ => {
            return Err(Error::ParseError);
        },
    };
    let idv = match &items[1] {
        MapItem::Entry(k, v) => match v {
            Node::Scalar(Scalar::Str(t)) => {
                if !bytes_eq(k, &key_id()) {
                    return Err(Error::ParseError);
                }
                t
            },
            _ => {
                return Err(Error::ParseError);
            },
        },
        _ => {
            return Err(Error::ParseError);
        },
    };
    let ev = match &items[2] {
        MapItem::Entry(k, v) => match v {
            Node::Scalar(Scalar::Str(t)) => {
                if !bytes_eq(k, &key_enc()) {
                    return Err(Error::ParseError);
                }
                t
            },
            _ => {
                return Err(Error::ParseError);
            },
        },
        _ => {
            return Err(Error::ParseError);
        },
    };
    let cr = match &items[3] {
        MapItem::Entry(k, v) => match v {
            Node::Scalar(Scalar::Str(t)) => {
                if !bytes_eq(k, &key_created()) {
                    return Err(Error::ParseError);
                }
                t
            },
            _ => {
                return Err(Error::ParseError);
            },
        },
        _ => {
            return Err(Error::ParseError);
        },
    };
    let kd = match parse_kind_of(kt) {
        Some(kd) => kd,
        None => {
            return Err(Error::ParseError);
        },
    };
    let pl = match b64_decode(ev) {
        Some(pl) => pl,
        None => {
            return Err(Error::ParseError);
        },
    };
    Ok(
        MasterKey {
            kind: kd,
            id: clone_bytes(idv),
            payload: pl,
            created_at: clone_bytes(cr),
        },
    )
}

/// If one element of the sequence fails to parse, the whole does.
proof fn lemma_parse_entries_none(ch: Seq<NodeV>, i: int)
    requires
        0 <= i < ch.len(),
        parse_entry(ch[i]) is None,
    ensures
        parse_entries(ch) is None,
    decreases ch.len(),
{
    if i < ch.len() - 1 {
        assert(ch.drop_last()[i] == ch[i]);
        lemma_parse_entries_none(ch.drop_last(), i);
    }
}

proof fn lemma_parse_groups_none(ch: Seq<NodeV>, i: int)
    requires
        0 <= i < ch.len(),
        parse_group(ch[i]) is None,
    ensures
        parse_groups(ch) is None,
    decreases ch.len(),
{
    if i < ch.len() - 1 {
        assert(ch.drop_last()[i] == ch[i]);
        lemma_parse_groups_none(ch.drop_last(), i);
    }
}

/// Reads one key group; fails exactly where the ghost [`parse_group`] does.
#[verifier::loop_isolation(false)]
pub fn group_from_node(n: &Node) -> (r: Result<Vec<MasterKey>, Error>)
    ensures
        (r is Ok) == (parse_group(n.deep_view()) is Some),
        r matches Ok(g) ==> parse_group(n.deep_view()) == Some(group_view(g@)),
        r matches Err(er) ==> er == Error::ParseError,
{
    let ch = match n {
        Node::Sequence(ch) => ch,
        _ => {
            return Err(Error::ParseError);
        },
    };
    let ghost cv = match n.deep_view() {
        NodeV::Sequence(c) => c,
        _ => Seq::empty(),
    };
    proof {
        assert(cv.len() == ch@.len());
        assert(forall|j: int| 0 <= j < ch@.len() ==> cv[j] == ch@[j].deep_view());
        assert(cv.take(0) =~= Seq::<NodeV>::empty());
    }
    let mut out: Vec<MasterKey> = Vec::new();
    let mut i: usize = 0;
    while i < ch.len()
        invariant
            0 <= i <= ch@.len(),
            out@.len() == i,
            parse_entries(cv.take(i as int)) matches Some(pre) && pre.len() == i && (forall|
                j: int,
            |
                0 <= j < i ==> pre[j] == (#[trigger] out@[j])@),
        decreases ch@.len() - i,
    {
        let ghost pre = parse_entries(cv.take(i as int)).unwrap();
        match entry_from_node(&ch[i]) {
            Ok(e) => {
                proof {
                    let k = i as int;
                    assert(cv.take(k + 1).drop_last() =~= cv.take(k));
                    assert(cv.take(k + 1).last() == cv[k]);
                }
                out.push(e);
            },
            Err(_) => {
                proof {
                    lemma_parse_entries_none(cv, i as int);
                }
                return Err(Error::ParseError);
            },
        }
        i += 1;
    }
    proof {
        assert(cv.take(ch@.len() as int) =~= cv);
        assert(parse_entries(cv).unwrap() =~= group_view(out@));
    }
    Ok(out)
}

/// Reads the metadata block; fails exactly where the ghost [`parse_meta`]
/// does.
#[verifier::loop_isolation(false)]
pub fn meta_from_node(n: &Node) -> (r: Result<Metadata, Error>)
    ensures
        (r is Ok) == (parse_meta(n.deep_view()) is Some),
        r matches Ok(m) ==> parse_meta(n.deep_view()) == Some(m@),
        r matches Err(er) ==> er == Error::ParseError,
{
    let items = match n {
        Node::Mapping(items) => items,
        _ => {
            return Err(Error::ParseError);
        },
    };
    proof {
        assert(n.deep_view() matches NodeV::Mapping(iv) && iv.len() == items@.len() && (
        forall|j: int| 0 <= j < items@.len() ==> iv[j] == items@[j].deep_view()));
    }
    if items.len() != 7 && items.len() != 6 {
        return Err(Error::ParseError);
    }
    let ver = match &items[0] {
        MapItem::Entry(k, v) => match v {
            Node::Scalar(Scalar::Str(t)) => {
                if !bytes_eq(k, &key_version()) {
                    return Err(Error::ParseError);
                }
                t
            },
            _ => {
                return Err(Error::ParseError);
            },
        },
        _ => {
            return Err(Error::ParseError);
        },
    };
    let lm = match &items[1] {
        MapItem::Entry(k, v) => match v {
            Node::Scalar(Scalar::Str(t)) => {
                if !bytes_eq(k, &key_lastmodified()) {
                    return Err(Error::ParseError);
                }
                t
            },
            _ => {
                return Err(Error::ParseError);
            },
        },
        _ => {
            return Err(Error::ParseError);
        },
    };
    let sfx = match &items[2] {
        MapItem::Entry(k, v) => match v {
            Node::Scalar(Scalar::Str(t)) => {
                if !bytes_eq(k, &key_suffix()) {
                    return Err(Error::ParseError);
                }
                t
            },
            _ => {
                return Err(Error::ParseError);
            },
        },
        _ => {
            return Err(Error::ParseError);
        },
    };
    let ec = match &items[3] {
        MapItem::Entry(k, v) => match v {
            Node::Scalar(Scalar::Bool(b)) => {
                if !bytes_eq(k, &key_comments()) {
                    return Err(Error::ParseError);
                }
                *b
            },
            _ => {
                return Err(Error::ParseError);
            },
        },
        _ => {
            return Err(Error::ParseError);
        },
    };
    let th = match &items[4] {
        MapItem::Entry(k, v) => match v {
            Node::Scalar(Scalar::Int(i)) => {
                if !bytes_eq(k, &key_threshold()) {
                    return Err(Error::ParseError);
                }
                if *i < 0 {
                    return Err(Error::ParseError);
                }
                *i as u64
            },
            _ => {
                return Err(Error::ParseError);
            },
        },
        _ => {
            return Err(Error::ParseError);
        },
    };
    let mc: Vec<u8> = if items.len() == 7 {
        match &items[5] {
            MapItem::Entry(k, v) => match v {
                Node::Scalar(Scalar::Str(t)) => {
                    if !bytes_eq(k, &key_mac()) {
                        return Err(Error::ParseError);
                    }
                    clone_bytes(t)
                },
                _ => {
                    return Err(Error::ParseError);
                },
            },
            _ => {
                return Err(Error::ParseError);
            },
        }
    } else {
        Vec::new()
    };
    let gpos = items.len() - 1;
    let gch = match &items[gpos] {
        MapItem::Entry(k, v) => match v {
            Node::Sequence(ch) => {
                if !bytes_eq(k, &key_groups()) {
                    return Err(Error::ParseError);
                }
                ch
            },
            _ => {
                return Err(Error::ParseError);
            },
        },
        _ => {
            return Err(Error::ParseError);
        },
    };
    let ghost gcv = Seq::new(gch@.len(), |j: int| gch@[j].deep_view());
    proof {
        match items@[gpos as int].deep_view() {
            MapItemV::Entry(_, NodeV::Sequence(gv)) => {
                assert(gv =~= gcv);
            },
            _ => {
                assert(false);
            },
        }
    }
    let mut gout: Vec<Vec<MasterKey>> = Vec::new();
    let mut i: usize = 0;
    proof {
        assert(gcv.take(0) =~= Seq::<NodeV>::empty());
    }
    while i < gch.len()
        invariant
            0 <= i <= gch@.len(),
            gout@.len() == i,
            parse_groups(gcv.take(i as int)) matches Some(pre) && pre.len() == i && (forall|
                j: int,
            |
                0 <= j < i ==> pre[j] == group_view((#[trigger] gout@[j])@)),
        decreases gch@.len() - i,
    {
        let ghost pre = parse_groups(gcv.take(i as int)).unwrap();
        match group_from_node(&gch[i]) {
            Ok(g) => {
                proof {
                    let k = i as int;
                    assert(gcv.take(k + 1).drop_last() =~= gcv.take(k));
                    assert(gcv.take(k + 1).last() == gcv[k]);
                }
                gout.push(g);
            },
            Err(_) => {
                proof {
                    lemma_parse_groups_none(gcv, i as int);
                }
                return Err(Error::ParseError);
            },
        }
        i += 1;
    }
    let m = Metadata {
        version: clone_bytes(ver),
        lastmodified: clone_bytes(lm),
        unencrypted_suffix: clone_bytes(sfx),
        encrypted_comments: ec,
        shamir_threshold: th,
        mac: mc,
        groups: gout,
    };
    proof {
        assert(gcv.take(gch@.len() as int) =~= gcv);
        assert(parse_groups(gcv).unwrap() =~= groups_view(m.groups@));
        if items@.len() == 6 {
            assert(m@.mac =~= Seq::<u8>::empty());
        }
    }
    Ok(m)
}

/// A backend name reads back to its kind.
proof fn lemma_kind_roundtrip(k: KeyKind)
    ensures
        parse_kind(kind_text(k)) == Some(k),
{
    match k {
        KeyKind::Kms => {},
        KeyKind::GcpKms => {
            assert(kind_text(KeyKind::GcpKms).len() == 7);
            assert(kind_text(KeyKind::Kms).len() == 3);
        },
        KeyKind::Vault => {
            assert(kind_text(KeyKind::Vault).len() == 5);
            assert(kind_text(KeyKind::Kms).len() == 3);
            assert(kind_text(KeyKind::GcpKms).len() == 7);
        },
        KeyKind::Pgp => {
            assert(kind_text(KeyKind::Pgp).len() == 3);
            assert(kind_text(KeyKind::Pgp)[0] == 112);
            assert(kind_text(KeyKind::Kms)[0] == 107);
            assert(kind_text(KeyKind::GcpKms).len() == 7);
            assert(kind_text(KeyKind::Vault).len() == 5);
        },
        KeyKind::Age => {
            assert(kind_text(KeyKind::Age).len() == 3);
            assert(kind_text(KeyKind::Age)[0] == 97);
            assert(kind_text(KeyKind::Kms)[0] == 107);
            assert(kind_text(KeyKind::Pgp)[0] == 112);
            assert(kind_text(KeyKind::GcpKms).len() == 7);
            assert(kind_text(KeyKind::Vault).len() == 5);
        },
        KeyKind::Local => {
            assert(kind_text(KeyKind::Local).len() == 5);
            assert(kind_text(KeyKind::Local)[0] == 108);
            assert(kind_text(KeyKind::Vault)[0] == 118);
            assert(kind_text(KeyKind::Kms).len() == 3);
            assert(kind_text(KeyKind::GcpKms).len() == 7);
            assert(kind_text(KeyKind::Pgp).len() == 3);
            assert(kind_text(KeyKind::Age).len() == 3);
        },
    }
}

/// One master-key entry survives its tree form.
proof fn lemma_entry_roundtrip(e: MasterKeyV)
    ensures
        parse_entry(entry_node(e)) == Some(e),
{
    lemma_kind_roundtrip(e.kind);
    crate::b64::lemma_b64_roundtrip(e.payload);
}

proof fn lemma_entries_roundtrip(g: Seq<MasterKeyV>, k: int)
    requires
        0 <= k <= g.len(),
    ensures
        parse_entries(Seq::new(g.len(), |i: int| entry_node(g[i])).take(k)) == Some(
            g.take(k),
        ),
    decreases k,
{
    let en = Seq::new(g.len(), |i: int| entry_node(g[i]));
    if k == 0 {
        assert(en.take(0) =~= Seq::<NodeV>::empty());
        assert(g.take(0) =~= Seq::<MasterKeyV>::empty());
        assert(parse_entries(en.take(0)).unwrap() =~= g.take(0));
    } else {
        lemma_entries_roundtrip(g, k - 1);
        lemma_entry_roundtrip(g[k - 1]);
        assert(en.take(k).drop_last() =~= en.take(k - 1));
        assert(en.take(k).last() == entry_node(g[k - 1]));
        assert(g.take(k) =~= g.take(k - 1).push(g[k - 1]));
    }
}

/// One key group survives its tree form.
proof fn lemma_group_roundtrip(g: Seq<MasterKeyV>)
    ensures
        parse_group(group_node(g)) == Some(g),
{
    lemma_entries_roundtrip(g, g.len() as int);
    let en = Seq::new(g.len(), |i: int| entry_node(g[i]));
    assert(en.take(g.len() as int) =~= en);
    assert(g.take(g.len() as int) =~= g);
}

proof fn lemma_groups_roundtrip(gs: Seq<Seq<MasterKeyV>>, k: int)
    requires
        0 <= k <= gs.len(),
    ensures
        parse_groups(Seq::new(gs.len(), |i: int| group_node(gs[i])).take(k)) == Some(
            gs.take(k),
        ),
    decreases k,
{
    let gn = Seq::new(gs.len(), |i: int| group_node(gs[i]));
    if k == 0 {
        assert(gn.take(0) =~= Seq::<NodeV>::empty());
        assert(gs.take(0) =~= Seq::<Seq<MasterKeyV>>::empty());
        assert(parse_groups(gn.take(0)).unwrap() =~= gs.take(0));
    } else {
        lemma_groups_roundtrip(gs, k - 1);
        lemma_group_roundtrip(gs[k - 1]);
        assert(gn.take(k).drop_last() =~= gn.take(k - 1));
        assert(gn.take(k).last() == group_node(gs[k - 1]));
        assert(gs.take(k) =~= gs.take(k - 1).push(gs[k - 1]));
    }
}

/// The metadata block survives its tree form: reading the tree this
/// library writes gives the metadata back, field for field.
pub proof fn lemma_meta_roundtrip(m: MetadataV)
    requires
        0 <= m.shamir_threshold <= u64::MAX,
    ensures
        parse_meta(meta_node(m)) == Some(m),
{
    lemma_groups_roundtrip(m.groups, m.groups.len() as int);
    let gn = Seq::new(m.groups.len(), |i: int| group_node(m.groups[i]));
    assert(gn.take(m.groups.len() as int) =~= gn);
    assert(m.groups.take(m.groups.len() as int) =~= m.groups);
    if m.mac.len() == 0 {
        assert(m.mac =~= Seq::<u8>::empty());
    }
}

} // verus!
