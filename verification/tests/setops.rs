//! Tests of the path-addressed `set` and `extract` operations.

use sops::api::{decrypt_bytes, encrypt_bytes, parse_value_literal, set_bytes, Format};
use sops::cipher::random_bytes;
use sops::keysvc::{KeyKind, LocalKeyService, LocalMaster};
use sops::path::PathSeg;
use sops::walk::WalkCfg;

fn service() -> LocalKeyService {
    LocalKeyService {
        masters: vec![LocalMaster { id: b"k1".to_vec(), key: random_bytes(32) }],
    }
}

fn one_group() -> Vec<Vec<(KeyKind, Vec<u8>)>> {
    vec![vec![(KeyKind::Local, b"k1".to_vec())]]
}

fn cfg() -> WalkCfg {
    WalkCfg {
        unencrypted_suffix: b"_unencrypted".to_vec(),
        encrypt_comments: true,
    }
}

fn encrypt(input: &[u8], fmt: Format, svc: &LocalKeyService) -> Vec<u8> {
    encrypt_bytes(&input.to_vec(), fmt, svc, &one_group(), 0, &cfg(), &b"".to_vec())
        .expect("encrypt")
}

#[test]
fn set_json_file_update() {
    let svc = service();
    let enc = encrypt(br#"{"a": 2, "b": "ba"}"#, Format::Json, &svc);
    let before: serde_json::Value = serde_json::from_slice(&enc).unwrap();
    let path = vec![PathSeg::Key(b"a".to_vec())];
    let value = parse_value_literal(&br#"{"aa": "aaa"}"#.to_vec());
    let out = set_bytes(&enc, Format::Json, &svc, &path, &value).expect("set");
    let after: serde_json::Value = serde_json::from_slice(&out).unwrap();
    let aa = after["a"]["aa"].as_str().expect("replaced subtree is encrypted");
    assert!(aa.starts_with("ENC["));
    // Only the replaced subtree was re-encrypted: the sibling's ciphertext
    // is byte-for-byte the one from before the update.
    assert_eq!(before["b"], after["b"]);
    let dec = decrypt_bytes(&out, Format::Json, &svc, false).expect("decrypt after set");
    let v: serde_json::Value = serde_json::from_slice(&dec).unwrap();
    assert_eq!(v["a"]["aa"], serde_json::Value::from("aaa"));
    assert_eq!(v["b"], serde_json::Value::from("ba"));
}

#[test]
fn set_json_file_insert() {
    let svc = service();
    let enc = encrypt(br#"{"a": 2, "b": "ba"}"#, Format::Json, &svc);
    let path = vec![PathSeg::Key(b"c".to_vec())];
    let value = parse_value_literal(&br#"{"cc": "ccc"}"#.to_vec());
    let out = set_bytes(&enc, Format::Json, &svc, &path, &value).expect("set");
    let after: serde_json::Value = serde_json::from_slice(&out).unwrap();
    let cc = after["c"]["cc"].as_str().expect("created subtree is encrypted");
    assert!(cc.starts_with("ENC["));
    let dec = decrypt_bytes(&out, Format::Json, &svc, false).expect("decrypt after set");
    let v: serde_json::Value = serde_json::from_slice(&dec).unwrap();
    assert_eq!(v["c"]["cc"], serde_json::Value::from("ccc"));
}

#[test]
fn set_yaml_file_update() {
    let svc = service();
    let enc = encrypt(b"a: 2\nb: ba", Format::Yaml, &svc);
    let path = vec![PathSeg::Key(b"a".to_vec())];
    let value = parse_value_literal(&br#"{"aa": "aaa"}"#.to_vec());
    let out = set_bytes(&enc, Format::Yaml, &svc, &path, &value).expect("set");
    let v: serde_yaml::Value = serde_yaml::from_slice(&out).unwrap();
    let aa = v["a"]["aa"].as_str().expect("encrypted");
    assert!(aa.starts_with("ENC["));
    let dec = decrypt_bytes(&out, Format::Yaml, &svc, false).unwrap();
    let v: serde_yaml::Value = serde_yaml::from_slice(&dec).unwrap();
    assert_eq!(v["a"]["aa"], serde_yaml::Value::from("aaa"));
}

#[test]
fn set_yaml_file_insert() {
    let svc = service();
    let enc = encrypt(b"a: 2\nb: ba", Format::Yaml, &svc);
    let path = vec![PathSeg::Key(b"c".to_vec())];
    let value = parse_value_literal(&br#"{"cc": "ccc"}"#.to_vec());
    let out = set_bytes(&enc, Format::Yaml, &svc, &path, &value).expect("set");
    let dec = decrypt_bytes(&out, Format::Yaml, &svc, false).unwrap();
    let v: serde_yaml::Value = serde_yaml::from_slice(&dec).unwrap();
    assert_eq!(v["cc"], serde_yaml::Value::Null);
    assert_eq!(v["c"]["cc"], serde_yaml::Value::from("ccc"));
}

#[test]
fn set_yaml_file_string() {
    let svc = service();
    let enc = encrypt(b"a: 2\nb: ba", Format::Yaml, &svc);
    let path = vec![PathSeg::Key(b"a".to_vec())];
    // A quoted literal is structured; it replaces the integer with text.
    let value = parse_value_literal(&br#""aaa""#.to_vec());
    let out = set_bytes(&enc, Format::Yaml, &svc, &path, &value).expect("set");
    let dec = decrypt_bytes(&out, Format::Yaml, &svc, false).unwrap();
    let v: serde_yaml::Value = serde_yaml::from_slice(&dec).unwrap();
    assert_eq!(v["a"], serde_yaml::Value::from("aaa"));
}

#[test]
fn set_yaml_file_string_compat() {
    // The legacy one-argument form: path and literal in a single string.
    let svc = service();
    let enc = encrypt(b"a: 2\nb: ba", Format::Yaml, &svc);
    let arg = r#"["a"] "aaa""#;
    let close = arg.find(']').unwrap();
    let path_part = &arg[..close + 1];
    let literal = arg[close + 1..].trim();
    assert_eq!(path_part, r#"["a"]"#);
    let path = vec![PathSeg::Key(b"a".to_vec())];
    let value = parse_value_literal(&literal.as_bytes().to_vec());
    let out = set_bytes(&enc, Format::Yaml, &svc, &path, &value).expect("set");
    let dec = decrypt_bytes(&out, Format::Yaml, &svc, false).unwrap();
    let v: serde_yaml::Value = serde_yaml::from_slice(&dec).unwrap();
    assert_eq!(v["a"], serde_yaml::Value::from("aaa"));
}

#[test]
fn set_raw_literal_falls_back_to_text() {
    let svc = service();
    let enc = encrypt(b"a: 2\nb: ba", Format::Yaml, &svc);
    let path = vec![PathSeg::Key(b"a".to_vec())];
    // A literal that is not valid JSON falls back to a raw text scalar.
    let value = parse_value_literal(&b"plain words".to_vec());
    let out = set_bytes(&enc, Format::Yaml, &svc, &path, &value).expect("set");
    let dec = decrypt_bytes(&out, Format::Yaml, &svc, false).unwrap();
    let v: serde_yaml::Value = serde_yaml::from_slice(&dec).unwrap();
    assert_eq!(v["a"], serde_yaml::Value::from("plain words"));
}

#[test]
fn set_sequence_index() {
    let svc = service();
    let enc = encrypt(b"list:\n  - one\n  - two", Format::Yaml, &svc);
    let path = vec![PathSeg::Key(b"list".to_vec()), PathSeg::Idx(1)];
    let value = parse_value_literal(&br#""three""#.to_vec());
    let out = set_bytes(&enc, Format::Yaml, &svc, &path, &value).expect("set");
    let dec = decrypt_bytes(&out, Format::Yaml, &svc, false).unwrap();
    let v: serde_yaml::Value = serde_yaml::from_slice(&dec).unwrap();
    assert_eq!(v["list"][0], serde_yaml::Value::from("one"));
    assert_eq!(v["list"][1], serde_yaml::Value::from("three"));
}

#[test]
fn set_missing_index_fails() {
    let svc = service();
    let enc = encrypt(b"list:\n  - one", Format::Yaml, &svc);
    let path = vec![PathSeg::Key(b"list".to_vec()), PathSeg::Idx(5)];
    let value = parse_value_literal(&br#""x""#.to_vec());
    assert!(set_bytes(&enc, Format::Yaml, &svc, &path, &value).is_err());
}
