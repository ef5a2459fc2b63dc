//! Tests of the format adapters, the comment policy, and the smaller
//! verified components, cross-checked against independent readers.

use sops::api::{decrypt_bytes, encrypt_bytes, parse_document, serialize_document, Format};
use sops::b64::{b64_decode, b64_encode};
use sops::cipher::random_bytes;
use sops::gf::{gf_inv, gf_mul};
use sops::keysvc::{KeyKind, LocalKeyService, LocalMaster};
use sops::shamir::{combine_shares, split_secret};
use sops::tree::{MapItem, Node, Scalar};
use sops::walk::WalkCfg;

fn service(ids: &[&str]) -> LocalKeyService {
    LocalKeyService {
        masters: ids
            .iter()
            .map(|i| LocalMaster { id: i.as_bytes().to_vec(), key: random_bytes(32) })
            .collect(),
    }
}

fn one_group(id: &str) -> Vec<Vec<(KeyKind, Vec<u8>)>> {
    vec![vec![(KeyKind::Local, id.as_bytes().to_vec())]]
}

fn cfg(comments: bool) -> WalkCfg {
    WalkCfg {
        unencrypted_suffix: b"_unencrypted".to_vec(),
        encrypt_comments: comments,
    }
}

#[test]
fn base64_roundtrip() {
    for len in 0..40usize {
        let data = random_bytes(len);
        let text = b64_encode(&data);
        assert_eq!(b64_decode(&text).expect("decodes"), data);
    }
    assert_eq!(b64_encode(&b"any carnal pleasure".to_vec()), b"YW55IGNhcm5hbCBwbGVhc3VyZQ==".to_vec());
}

#[test]
fn field_arithmetic() {
    assert_eq!(gf_mul(0, 7), 0);
    assert_eq!(gf_mul(1, 7), 7);
    assert_eq!(gf_mul(7, 1), 7);
    assert_eq!(gf_mul(3, 7), gf_mul(7, 3));
    for b in 1..=255u8 {
        let inv = gf_inv(b).expect("every nonzero element has an inverse");
        assert_eq!(gf_mul(b, inv), 1);
    }
}

#[test]
fn shamir_two_of_three() {
    let secret = random_bytes(32);
    let shares = split_secret(&secret, 2, 3);
    assert_eq!(shares.len(), 3);
    for drop in 0..3usize {
        let kept: Vec<sops::shamir::Share> = shares
            .iter()
            .enumerate()
            .filter(|(i, _)| *i != drop)
            .map(|(_, s)| sops::shamir::Share { x: s.x, y: s.y.clone() })
            .collect();
        let back = combine_shares(&kept).expect("two shares recover");
        assert_eq!(back, secret);
    }
}

#[test]
fn shamir_single_threshold_shares_hold_secret() {
    let secret = random_bytes(32);
    let shares = split_secret(&secret, 1, 4);
    for s in &shares {
        assert_eq!(s.y, secret);
    }
}

#[test]
fn json_parser_reads_typed_scalars() {
    let input = b"{\"a\": [1, true, null, \"x\\ny\"], \"b\": 1.5, \"c\": \"\\u00e9\"}".to_vec();
    let t = parse_document(&input, Format::Json).expect("parses");
    let expected = Node::Mapping(vec![
        MapItem::Entry(
            b"a".to_vec(),
            Node::Sequence(vec![
                Node::Scalar(Scalar::Int(1)),
                Node::Scalar(Scalar::Bool(true)),
                Node::Scalar(Scalar::Null),
                Node::Scalar(Scalar::Str(b"x\ny".to_vec())),
            ]),
        ),
        MapItem::Entry(b"b".to_vec(), Node::Scalar(Scalar::Float(b"1.5".to_vec()))),
        MapItem::Entry(b"c".to_vec(), Node::Scalar(Scalar::Str("\u{e9}".as_bytes().to_vec()))),
    ]);
    assert!(t == expected);
}

#[test]
fn json_rejects_duplicate_keys() {
    let input = b"{\"a\": 1, \"a\": 2}".to_vec();
    assert!(parse_document(&input, Format::Json).is_err());
}

#[test]
fn json_writer_agrees_with_independent_reader() {
    let t = Node::Mapping(vec![
        MapItem::Entry(b"num".to_vec(), Node::Scalar(Scalar::Int(-42))),
        MapItem::Entry(b"text".to_vec(), Node::Scalar(Scalar::Str(b"line\n\"q\"".to_vec()))),
        MapItem::Entry(b"flag".to_vec(), Node::Scalar(Scalar::Bool(false))),
    ]);
    let out = serialize_document(&t, Format::Json).unwrap();
    let v: serde_json::Value = serde_json::from_slice(&out).unwrap();
    assert_eq!(v["num"], serde_json::Value::from(-42));
    assert_eq!(v["text"], serde_json::Value::from("line\n\"q\""));
    assert_eq!(v["flag"], serde_json::Value::from(false));
}

#[test]
fn yaml_roundtrip_with_nesting() {
    let input =
        b"top: plain\nnested:\n  inner: 7\n  flag: true\nlist:\n  - one\n  - 2\n".to_vec();
    let t = parse_document(&input, Format::Yaml).expect("parses");
    let out = serialize_document(&t, Format::Yaml).unwrap();
    let t2 = parse_document(&out, Format::Yaml).expect("reparses");
    assert!(t == t2);
    // And an independent reader agrees on the shape.
    let v: serde_yaml::Value = serde_yaml::from_slice(&out).unwrap();
    assert_eq!(v["nested"]["inner"], serde_yaml::Value::from(7));
    assert_eq!(v["list"][1], serde_yaml::Value::from(2));
}

#[test]
fn yaml_block_scalar_roundtrip() {
    let input = b"multiline: |\n  multi\n  line\nkept: |-\n  no\n  newline".to_vec();
    let t = parse_document(&input, Format::Yaml).expect("parses");
    let expected = Node::Mapping(vec![
        MapItem::Entry(b"multiline".to_vec(), Node::Scalar(Scalar::Str(b"multi\nline\n".to_vec()))),
        MapItem::Entry(b"kept".to_vec(), Node::Scalar(Scalar::Str(b"no\nnewline".to_vec()))),
    ]);
    assert!(t == expected);
    let out = serialize_document(&t, Format::Yaml).unwrap();
    let t2 = parse_document(&out, Format::Yaml).expect("reparses");
    assert!(t == t2);
}

#[test]
fn encrypt_comments() {
    let svc = service(&["k1"]);
    let input = b"# first comment in file\nkey: value\nlist:\n  # this-is-a-comment\n  - item\n".to_vec();
    let out = encrypt_bytes(&input, Format::Yaml, &svc, &one_group("k1"), 0, &cfg(true), &b"".to_vec()).unwrap();
    let text = String::from_utf8(out.clone()).unwrap();
    assert!(!text.contains("first comment in file"), "comment was not encrypted");
    assert!(!text.contains("this-is-a-comment"), "comment was not encrypted");
    let dec = decrypt_bytes(&out, Format::Yaml, &svc, false).unwrap();
    let text = String::from_utf8(dec).unwrap();
    assert!(text.contains("first comment in file"), "comment was not decrypted");
    assert!(text.contains("this-is-a-comment"), "comment was not decrypted");
}

#[test]
fn decrypt_comments_unencrypted_comments() {
    // A document encrypted without comment encryption keeps its comments in
    // cleartext, and decryption passes them through visibly.
    let svc = service(&["k1"]);
    let input = b"# first comment in file\nkey: value\n".to_vec();
    let out = encrypt_bytes(&input, Format::Yaml, &svc, &one_group("k1"), 0, &cfg(false), &b"".to_vec()).unwrap();
    let text = String::from_utf8(out.clone()).unwrap();
    assert!(text.contains("first comment in file"), "comment should stay readable");
    let dec = decrypt_bytes(&out, Format::Yaml, &svc, false).unwrap();
    let text = String::from_utf8(dec).unwrap();
    assert!(text.contains("first comment in file"), "comment was not kept");
}

#[test]
fn integer_edges_roundtrip() {
    let svc = service(&["k1"]);
    let input = b"{\"min\": -9223372036854775808, \"max\": 9223372036854775807, \"zero\": 0}"
        .to_vec();
    let out = encrypt_bytes(&input, Format::Json, &svc, &one_group("k1"), 0, &cfg(true), &b"".to_vec()).unwrap();
    let dec = decrypt_bytes(&out, Format::Json, &svc, false).unwrap();
    let before: serde_json::Value = serde_json::from_slice(&input).unwrap();
    let after: serde_json::Value = serde_json::from_slice(&dec).unwrap();
    assert_eq!(before, after);
}

#[test]
fn float_text_roundtrips_verbatim() {
    let svc = service(&["k1"]);
    let input = b"{\"pi\": 3.14159, \"exp\": 1.5e10}".to_vec();
    let out = encrypt_bytes(&input, Format::Json, &svc, &one_group("k1"), 0, &cfg(true), &b"".to_vec()).unwrap();
    let dec = decrypt_bytes(&out, Format::Json, &svc, false).unwrap();
    let text = String::from_utf8(dec).unwrap();
    assert!(text.contains("3.14159"));
    assert!(text.contains("1.5e10"));
}

#[test]
fn enc_value_notation() {
    let svc = service(&["k1"]);
    let input = b"a: hello".to_vec();
    let out = encrypt_bytes(&input, Format::Yaml, &svc, &one_group("k1"), 0, &cfg(true), &b"".to_vec()).unwrap();
    let text = String::from_utf8(out).unwrap();
    let val = text
        .lines()
        .find(|l| l.starts_with("a: "))
        .expect("entry for a")
        .trim_start_matches("a: ");
    assert!(val.starts_with("ENC[AES256_GCM,data:"));
    assert!(val.contains(",iv:"));
    assert!(val.contains(",tag:"));
    assert!(val.ends_with(",type:str]"));
}

#[test]
fn malformed_input_is_a_parse_error() {
    let svc = service(&["k1"]);
    let garbage = b"{not json at all".to_vec();
    let err = decrypt_bytes(&garbage, Format::Json, &svc, false).unwrap_err();
    assert!(matches!(err, sops::error::Error::ParseError));
}

#[test]
fn missing_metadata_is_a_parse_error() {
    let svc = service(&["k1"]);
    let plain = b"{\"a\": 1}".to_vec();
    let err = decrypt_bytes(&plain, Format::Json, &svc, false).unwrap_err();
    assert!(matches!(err, sops::error::Error::ParseError));
}

#[test]
fn missing_path_is_a_path_error() {
    let svc = service(&["k1"]);
    let input = b"a: 1".to_vec();
    let out = encrypt_bytes(&input, Format::Yaml, &svc, &one_group("k1"), 0, &cfg(true), &b"".to_vec()).unwrap();
    let path = vec![sops::path::PathSeg::Key(b"missing".to_vec())];
    let err = sops::api::extract_bytes(&out, Format::Yaml, &svc, &path, false).unwrap_err();
    assert!(matches!(err, sops::error::Error::PathError));
}
