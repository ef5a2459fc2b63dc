//! The byte-level surface: parse a document in a concrete format, run the
//! document operation, and serialize the result.

use vstd::prelude::*;
use crate::tree::{Node, NodeV, Scalar, ScalarV, MapItem, MapItemV, node_wf, clone_bytes};
use crate::json::{parse_json, to_json, json_parse, json_node};
use crate::yaml::{parse_yaml, to_yaml, yaml_block, yaml_parse};
use crate::doc::{
    encrypt_document, decrypt_document, set_document, extract_document, doc_enc_rel,
    doc_decrypts_to, doc_set_rel,
};
use crate::meta::MetadataV;
use crate::walk::WalkCfg;
use crate::keysvc::{KeyService, KeyKind};
use crate::path::{PathSeg, key_index_exec, items_view, segs_view, get_at};
use crate::error::Error;

verus! {

/// A concrete document syntax.
#[derive(Clone, Copy, Debug, PartialEq, Eq, Structural)]
pub enum Format {
    Json,
    Yaml,
    Binary,
}

/// `"data"`: the synthetic key under which a binary document's payload
/// travels through the pipeline.
pub open spec fn data_key() -> Seq<u8> {
    seq![100u8, 97u8, 116u8, 97u8]
}

fn key_data() -> (r: Vec<u8>)
    ensures
        r@ == data_key(),
{
    let r: Vec<u8> = vec![100, 97, 116, 97];
    proof {
        assert(r@ =~= data_key());
    }
    r
}

/// The synthetic tree a binary payload travels as.
pub open spec fn binary_doc(s: Seq<u8>) -> NodeV {
    NodeV::Mapping(seq![MapItemV::Entry(data_key(), NodeV::Scalar(ScalarV::Bytes(s)))])
}

/// Parses input bytes into a document tree.  JSON succeeds and fails
/// exactly where the ghost [`json_parse`] does and returns exactly its
/// tree; a binary input becomes a single-entry mapping holding the whole
/// payload, so the rest of the pipeline is format-agnostic.  Every mapping
/// of the result has unique keys.
pub fn parse_document(input: &Vec<u8>, fmt: Format) -> (r: Result<Node, Error>)
    ensures
        r matches Ok(t) ==> node_wf(t.deep_view()),
        (fmt matches Format::Json) ==> ((r is Ok) == (json_parse(input@) is Some)) && (r
            matches Ok(t) ==> json_parse(input@) == Some(t.deep_view())),
        (fmt matches Format::Yaml) ==> ((r is Ok) == (yaml_parse(input@) is Some)) && (r
            matches Ok(t) ==> yaml_parse(input@) == Some(t.deep_view())),
        (fmt matches Format::Binary) ==> (r matches Ok(t) && t.deep_view() == binary_doc(
            input@,
        )),
        r matches Err(e) ==> e == Error::ParseError,
{
    match fmt {
        Format::Json => parse_json(input),
        Format::Yaml => parse_yaml(input),
        Format::Binary => {
            let mut items: Vec<MapItem> = Vec::new();
            let ghost pv = input@;
            let it = MapItem::Entry(key_data(), Node::Scalar(Scalar::Bytes(clone_bytes(
                input,
            ))));
            let ghost itv = it.deep_view();
            proof {
                assert(itv == MapItemV::Entry(
                    data_key(),
                    NodeV::Scalar(ScalarV::Bytes(pv)),
                ));
            }
            items.push(it);
            let n = Node::Mapping(items);
            proof {
                match n.deep_view() {
                    NodeV::Mapping(iv) => {
                        assert(iv =~= seq![itv]);
                        assert(iv.drop_last() =~= Seq::<MapItemV>::empty());
                        assert(crate::tree::items_wf(iv.drop_last()));
                        assert(iv.last() == itv);
                        assert(node_wf(NodeV::Scalar(ScalarV::Bytes(pv))));
                        assert(crate::tree::items_wf(iv));
                        assert(crate::tree::keys_unique(iv));
                        assert(node_wf(n.deep_view()));
                    },
                    _ => {
                        assert(false);
                    },
                }
            }
            Ok(n)
        },
    }
}

/// The raw payload a tree carries in the binary format: the text or binary
/// bytes of its `data` entry.
pub open spec fn binary_payload(o: NodeV) -> Option<Seq<u8>> {
    match o {
        NodeV::Mapping(items) => {
            let j = crate::path::key_index(items, data_key());
            if j < 0 {
                None
            } else {
                match items[j] {
                    MapItemV::Entry(_, NodeV::Scalar(ScalarV::Bytes(b))) => Some(b),
                    MapItemV::Entry(_, NodeV::Scalar(ScalarV::Str(t))) => Some(t),
                    _ => None,
                }
            }
        },
        _ => None,
    }
}

/// Serializes a document tree.  JSON output is exactly the ghost printer's
/// text.  In the binary format the tree must carry a `data` entry whose
/// value is the payload; its raw bytes come back verbatim.
pub fn serialize_document(n: &Node, fmt: Format) -> (r: Result<Vec<u8>, Error>)
    ensures
        (fmt matches Format::Json) ==> (r matches Ok(b) && (r matches Ok(b2) ==> b2@
            == crate::json::json_node(n.deep_view()))),
        (fmt matches Format::Yaml) ==> ((r is Ok) == (yaml_block(n.deep_view(), 0)
            is Some)) && (r matches Ok(b) ==> yaml_block(n.deep_view(), 0) == Some(b@)),
        (fmt matches Format::Binary) ==> ((r is Ok) == (binary_payload(n.deep_view())
            is Some)) && (r matches Ok(b) ==> binary_payload(n.deep_view()) == Some(b@)),
        r matches Err(e) ==> e == Error::SerializeError,
{
    match fmt {
        Format::Json => Ok(to_json(n)),
        Format::Yaml => to_yaml(n),
        Format::Binary => {
            match n {
                Node::Mapping(items) => {
                    let ghost iv = items_view(items@);
                    proof {
                        assert(n.deep_view() matches NodeV::Mapping(iv2) && iv2 =~= iv);
                    }
                    let dk = key_data();
                    match key_index_exec(items, &dk) {
                        Some(j) => {
                            match &items[j] {
                                MapItem::Entry(_, v) => {
                                    match v {
                                        Node::Scalar(Scalar::Bytes(b)) => Ok(clone_bytes(b)),
                                        Node::Scalar(Scalar::Str(t)) => Ok(clone_bytes(t)),
                                        _ => Err(Error::SerializeError),
                                    }
                                },
                                _ => {
                                    proof {
                                        crate::path::lemma_key_index_entry(iv, data_key());
                                    }
                                    Err(Error::SerializeError)
                                },
                            }
                        },
                        None => Err(Error::SerializeError),
                    }
                },
                _ => Err(Error::SerializeError),
            }
        },
    }
}

/// What emitting an extracted subtree as JSON yields: raw bytes for a text
/// or binary scalar, the printed text otherwise.
pub open spec fn extracted_json(subv: NodeV) -> Seq<u8> {
    match subv {
        NodeV::Scalar(ScalarV::Str(t)) => t,
        NodeV::Scalar(ScalarV::Bytes(b)) => b,
        _ => json_node(subv),
    }
}

/// What emitting an extracted subtree as YAML yields: raw bytes for a
/// text or binary scalar, the printed block otherwise.
pub open spec fn extracted_yaml(subv: NodeV) -> Option<Seq<u8>> {
    match subv {
        NodeV::Scalar(ScalarV::Str(t)) => Some(t),
        NodeV::Scalar(ScalarV::Bytes(b)) => Some(b),
        _ => yaml_block(subv, 0),
    }
}

/// Emits an extracted subtree: a plain text or binary scalar comes back as
/// its raw bytes with nothing around them; any other tree is serialized in
/// the ambient format.
pub fn render_extracted(n: &Node, fmt: Format) -> (r: Result<Vec<u8>, Error>)
    ensures
        (fmt matches Format::Json) ==> (r matches Ok(b) && (r matches Ok(b2) ==> b2@
            == extracted_json(n.deep_view()))),
        (fmt matches Format::Yaml) ==> ((r is Ok) == (extracted_yaml(n.deep_view())
            is Some)) && (r matches Ok(b) ==> extracted_yaml(n.deep_view()) == Some(b@)),
        (n matches Node::Scalar(s) && s matches Scalar::Str(t)) ==> (r matches Ok(b) && (n
            matches Node::Scalar(s2) ==> (s2 matches Scalar::Str(t2) ==> b@ == t2@))),
        (n matches Node::Scalar(s) && s matches Scalar::Bytes(t)) ==> (r matches Ok(b) && (
        n matches Node::Scalar(s2) ==> (s2 matches Scalar::Bytes(t2) ==> b@ == t2@))),
        r matches Err(e) ==> e == Error::SerializeError,
{
    match n {
        Node::Scalar(Scalar::Str(t)) => Ok(clone_bytes(t)),
        Node::Scalar(Scalar::Bytes(b)) => Ok(clone_bytes(b)),
        _ => serialize_document(n, fmt),
    }
}

/// Parses, encrypts, and serializes in one step.  A binary input is always
/// written out as JSON, which is the only syntax that can carry its
/// metadata block.
pub fn encrypt_bytes<S: KeyService>(
    input: &Vec<u8>,
    fmt: Format,
    svc: &S,
    recipients: &Vec<Vec<(KeyKind, Vec<u8>)>>,
    threshold: usize,
    cfg: &WalkCfg,
    lastmodified: &Vec<u8>,
) -> (r: Result<Vec<u8>, Error>)
    ensures
        (fmt matches Format::Json) ==> (r matches Ok(b) ==> (exists|
            t: NodeV,
            o: NodeV,
            dk: Seq<u8>,
            mv: MetadataV,
        |
            json_parse(input@) == Some(t) && #[trigger] doc_enc_rel(
                svc,
                t,
                o,
                dk,
                mv,
                cfg@,
                lastmodified@,
                threshold as int,
            ) && b@ == json_node(o))),
        (fmt matches Format::Json) ==> (json_parse(input@) is None ==> r == Err::<
            Vec<u8>,
            Error,
        >(Error::ParseError)),
        (fmt matches Format::Yaml) ==> (r matches Ok(b) ==> (exists|
            t: NodeV,
            o: NodeV,
            dk: Seq<u8>,
            mv: MetadataV,
        |
            yaml_parse(input@) == Some(t) && #[trigger] doc_enc_rel(
                svc,
                t,
                o,
                dk,
                mv,
                cfg@,
                lastmodified@,
                threshold as int,
            ) && yaml_block(o, 0) == Some(b@))),
        (fmt matches Format::Yaml) ==> (yaml_parse(input@) is None ==> r == Err::<
            Vec<u8>,
            Error,
        >(Error::ParseError)),
        (fmt matches Format::Binary) ==> (r matches Ok(b) ==> (exists|
            o: NodeV,
            dk: Seq<u8>,
            mv: MetadataV,
        |
            #[trigger] doc_enc_rel(
                svc,
                binary_doc(input@),
                o,
                dk,
                mv,
                cfg@,
                lastmodified@,
                threshold as int,
            ) && b@ == json_node(o))),
        r matches Err(e) ==> e == Error::ParseError || e == Error::KeyRecoveryError || e
            == Error::CipherError || e == Error::SerializeError,
{
    let tree = match parse_document(input, fmt) {
        Ok(t) => t,
        Err(e) => {
            return Err(e);
        },
    };
    let enc = match encrypt_document(&tree, svc, recipients, threshold, cfg, lastmodified) {
        Ok(e) => e,
        Err(e) => {
            return Err(e);
        },
    };
    proof {
        let (dk, mv) = choose|dk: Seq<u8>, mv: MetadataV|
            doc_enc_rel(
                svc,
                tree.deep_view(),
                enc.deep_view(),
                dk,
                mv,
                cfg@,
                lastmodified@,
                threshold as int,
            );
        assert(doc_enc_rel(
            svc,
            tree.deep_view(),
            enc.deep_view(),
            dk,
            mv,
            cfg@,
            lastmodified@,
            threshold as int,
        ));
    }
    let out_fmt = match fmt {
        Format::Binary => Format::Json,
        _ => fmt,
    };
    serialize_document(&enc, out_fmt)
}

/// Parses, decrypts, and serializes in one step.  An encrypted binary
/// document arrives as JSON and leaves as the raw payload.
pub fn decrypt_bytes<S: KeyService>(
    input: &Vec<u8>,
    fmt: Format,
    svc: &S,
    ignore_mac: bool,
) -> (r: Result<Vec<u8>, Error>)
    ensures
        (fmt matches Format::Json) ==> (r matches Ok(b) ==> (exists|t: NodeV, d: NodeV|
            json_parse(input@) == Some(t) && #[trigger] doc_decrypts_to(
                svc,
                t,
                ignore_mac,
                d,
            ) && b@ == json_node(d))),
        (fmt matches Format::Json || fmt matches Format::Binary) ==> (json_parse(input@)
            is None ==> r == Err::<Vec<u8>, Error>(Error::ParseError)),

        (fmt matches Format::Yaml) ==> (r matches Ok(b) ==> (exists|t: NodeV, d: NodeV|
            yaml_parse(input@) == Some(t) && #[trigger] doc_decrypts_to(
                svc,
                t,
                ignore_mac,
                d,
            ) && yaml_block(d, 0) == Some(b@))),
        (fmt matches Format::Yaml) ==> (yaml_parse(input@) is None ==> r == Err::<
            Vec<u8>,
            Error,
        >(Error::ParseError)),
        (fmt matches Format::Binary) ==> (r matches Ok(b) ==> (exists|t: NodeV, d: NodeV|
            json_parse(input@) == Some(t) && #[trigger] doc_decrypts_to(
                svc,
                t,
                ignore_mac,
                d,
            ) && binary_payload(d) == Some(b@))),
        r matches Err(e) ==> e == Error::ParseError || e == Error::KeyRecoveryError || e
            == Error::CipherError || e == Error::MacVerificationError || e
            == Error::SerializeError,
{
    let in_fmt = match fmt {
        Format::Binary => Format::Json,
        _ => fmt,
    };
    let tree = match parse_document(input, in_fmt) {
        Ok(t) => t,
        Err(e) => {
            return Err(e);
        },
    };
    let plain = match decrypt_document(&tree, svc, ignore_mac) {
        Ok(p) => p,
        Err(e) => {
            return Err(e);
        },
    };
    serialize_document(&plain, fmt)
}

/// Parses, decrypts, extracts the subtree at `path`, and emits it raw (for
/// a scalar) or serialized.
pub fn extract_bytes<S: KeyService>(
    input: &Vec<u8>,
    fmt: Format,
    svc: &S,
    path: &Vec<PathSeg>,
    ignore_mac: bool,
) -> (r: Result<Vec<u8>, Error>)
    ensures
        (fmt matches Format::Json) ==> (r matches Ok(b) ==> (exists|
            t: NodeV,
            d: NodeV,
            sub: NodeV,
        |
            #![trigger doc_decrypts_to(svc, t, ignore_mac, d), extracted_json(sub)]
            json_parse(input@) == Some(t) && doc_decrypts_to(svc, t, ignore_mac, d)
                && get_at(d, segs_view(path@)) == Some(sub) && b@ == extracted_json(sub))),
        (fmt matches Format::Yaml) ==> (r matches Ok(b) ==> (exists|
            t: NodeV,
            d: NodeV,
            sub: NodeV,
        |
            #![trigger doc_decrypts_to(svc, t, ignore_mac, d), extracted_yaml(sub)]
            yaml_parse(input@) == Some(t) && doc_decrypts_to(svc, t, ignore_mac, d)
                && get_at(d, segs_view(path@)) == Some(sub) && extracted_yaml(sub) == Some(
                b@,
            ))),
        r matches Err(e) ==> e == Error::ParseError || e == Error::KeyRecoveryError || e
            == Error::CipherError || e == Error::MacVerificationError || e
            == Error::SerializeError || e == Error::PathError,
{
    let in_fmt = match fmt {
        Format::Binary => Format::Json,
        _ => fmt,
    };
    let tree = match parse_document(input, in_fmt) {
        Ok(t) => t,
        Err(e) => {
            return Err(e);
        },
    };
    let sub = match extract_document(&tree, svc, path, ignore_mac) {
        Ok(s) => s,
        Err(e) => {
            return Err(e);
        },
    };
    proof {
        let d = choose|d: NodeV|
            doc_decrypts_to(svc, tree.deep_view(), ignore_mac, d) && get_at(
                d,
                segs_view(path@),
            ) == Some(sub.deep_view());
        assert(doc_decrypts_to(svc, tree.deep_view(), ignore_mac, d));
    }
    render_extracted(&sub, fmt)
}

/// Parses, runs `set`, and serializes the still-encrypted document.
pub fn set_bytes<S: KeyService>(
    input: &Vec<u8>,
    fmt: Format,
    svc: &S,
    path: &Vec<PathSeg>,
    value: &Node,
) -> (r: Result<Vec<u8>, Error>)
    ensures
        (fmt matches Format::Json) ==> (r matches Ok(b) ==> (exists|
            t: NodeV,
            o: NodeV,
            dk: Seq<u8>,
            mv: MetadataV,
            mv2: MetadataV,
            esub: NodeV,
        |
            json_parse(input@) == Some(t) && #[trigger] doc_set_rel(
                svc,
                t,
                segs_view(path@),
                value.deep_view(),
                o,
                dk,
                mv,
                mv2,
                esub,
            ) && b@ == json_node(o))),
        (fmt matches Format::Yaml) ==> (r matches Ok(b) ==> (exists|
            t: NodeV,
            o: NodeV,
            dk: Seq<u8>,
            mv: MetadataV,
            mv2: MetadataV,
            esub: NodeV,
        |
            yaml_parse(input@) == Some(t) && #[trigger] doc_set_rel(
                svc,
                t,
                segs_view(path@),
                value.deep_view(),
                o,
                dk,
                mv,
                mv2,
                esub,
            ) && yaml_block(o, 0) == Some(b@))),
        r matches Err(e) ==> e == Error::ParseError || e == Error::KeyRecoveryError || e
            == Error::CipherError || e == Error::MacVerificationError || e
            == Error::SerializeError || e == Error::PathError,
{
    let in_fmt = match fmt {
        Format::Binary => Format::Json,
        _ => fmt,
    };
    let tree = match parse_document(input, in_fmt) {
        Ok(t) => t,
        Err(e) => {
            return Err(e);
        },
    };
    let out = match set_document(&tree, svc, path, value) {
        Ok(o) => o,
        Err(e) => {
            return Err(e);
        },
    };
    proof {
        let (dk, mv, mv2, esub) = choose|dk: Seq<u8>, mv: MetadataV, mv2: MetadataV, esub: NodeV|
            doc_set_rel(
                svc,
                tree.deep_view(),
                segs_view(path@),
                value.deep_view(),
                out.deep_view(),
                dk,
                mv,
                mv2,
                esub,
            );
        assert(doc_set_rel(
            svc,
            tree.deep_view(),
            segs_view(path@),
            value.deep_view(),
            out.deep_view(),
            dk,
            mv,
            mv2,
            esub,
        ));
    }
    serialize_document(&out, in_fmt)
}

/// Reads a `set`/`extract` value literal: the parsed JSON tree when the
/// bytes are a JSON literal, else a raw text scalar holding the bytes
/// themselves.
pub fn parse_value_literal(input: &Vec<u8>) -> (r: Node)
    ensures
        json_parse(input@) matches Some(t) ==> r.deep_view() == t,
        json_parse(input@) is None ==> r.deep_view() == NodeV::Scalar(ScalarV::Str(input@)),
        r.deep_view() matches NodeV::Scalar(_) || node_wf(r.deep_view()),
{
    match parse_json(input) {
        Ok(t) => t,
        Err(_) => Node::Scalar(Scalar::Str(clone_bytes(input))),
    }
}

} // verus!
