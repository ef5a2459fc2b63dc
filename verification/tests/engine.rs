//! End-to-end tests of the encryption engine with the local key backend.

use sops::api::{decrypt_bytes, encrypt_bytes, extract_bytes, parse_document, Format};
use sops::cipher::{aead_open, aead_seal, random_bytes};
use sops::error::Error;
use sops::keysvc::{KeyKind, LocalKeyService, LocalMaster};
use sops::validate::{decrypt_with_sops_python, encrypt_with_sops_python};
use sops::walk::WalkCfg;

fn master(id: &str) -> LocalMaster {
    LocalMaster {
        id: id.as_bytes().to_vec(),
        key: random_bytes(32),
    }
}

fn service(ids: &[&str]) -> LocalKeyService {
    LocalKeyService {
        masters: ids.iter().map(|i| master(i)).collect(),
    }
}

fn one_group(id: &str) -> Vec<Vec<(KeyKind, Vec<u8>)>> {
    vec![vec![(KeyKind::Local, id.as_bytes().to_vec())]]
}

fn default_cfg() -> WalkCfg {
    WalkCfg {
        unencrypted_suffix: b"_unencrypted".to_vec(),
        encrypt_comments: true,
    }
}

#[test]
fn aead_roundtrip_and_tamper() {
    let key = random_bytes(32);
    let nonce = random_bytes(12);
    let aad = b"path:".to_vec();
    let pt = b"plain value".to_vec();
    let sealed = aead_seal(&key, &nonce, &aad, &pt);
    assert_eq!(sealed.len(), pt.len() + 16);
    assert_ne!(&sealed[..pt.len()], &pt[..]);
    let opened = aead_open(&key, &nonce, &aad, &sealed).expect("must open");
    assert_eq!(opened, pt);
    let mut bad = sealed.clone();
    bad[0] ^= 1;
    assert!(aead_open(&key, &nonce, &aad, &bad).is_none());
    let other_aad = b"other:".to_vec();
    assert!(aead_open(&key, &nonce, &other_aad, &sealed).is_none());
}

#[test]
fn encrypt_json_file() {
    let svc = service(&["k1"]);
    let input = b"{\n    \"foo\": 2,\n    \"bar\": \"baz\"\n}".to_vec();
    let out = encrypt_bytes(
        &input,
        Format::Json,
        &svc,
        &one_group("k1"),
        0,
        &default_cfg(),
        &b"2024-01-01T00:00:00Z".to_vec(),
    )
    .expect("encrypt");
    let v: serde_json::Value = serde_json::from_slice(&out).expect("well-formed JSON");
    let obj = v.as_object().expect("object");
    assert!(obj.get("sops").is_some(), "sops metadata branch not found");
    for k in ["foo", "bar"] {
        let s = obj.get(k).unwrap().as_str().expect("encrypted value is a string");
        assert!(s.starts_with("ENC["), "value is not encrypted");
    }
    let dec = decrypt_bytes(&out, Format::Json, &svc, false).expect("decrypt");
    let before: serde_json::Value = serde_json::from_slice(&input).unwrap();
    let after: serde_json::Value = serde_json::from_slice(&dec).unwrap();
    assert_eq!(before, after);
}

#[test]
fn encrypt_yaml_file() {
    let svc = service(&["k1"]);
    let input = b"foo: 2\nbar: baz".to_vec();
    let out = encrypt_bytes(
        &input,
        Format::Yaml,
        &svc,
        &one_group("k1"),
        0,
        &default_cfg(),
        &b"".to_vec(),
    )
    .expect("encrypt");
    let v: serde_yaml::Value = serde_yaml::from_slice(&out).expect("well-formed YAML");
    let m = v.as_mapping().expect("mapping");
    assert!(m.get(&serde_yaml::Value::String("sops".into())).is_some());
    for k in ["foo", "bar"] {
        let s = m
            .get(&serde_yaml::Value::String(k.into()))
            .unwrap()
            .as_str()
            .expect("string");
        assert!(s.starts_with("ENC["), "value is not encrypted");
    }
    let dec = decrypt_bytes(&out, Format::Yaml, &svc, false).expect("decrypt");
    let before = parse_document(&input, Format::Yaml).unwrap();
    let after = parse_document(&dec, Format::Yaml).unwrap();
    assert!(before == after, "decrypted tree differs from the original");
}

#[test]
fn roundtrip_binary() {
    let svc = service(&["k1"]);
    let data = b"\"\"{}this_is_binary_data".to_vec();
    let out = encrypt_bytes(
        &data,
        Format::Binary,
        &svc,
        &one_group("k1"),
        0,
        &default_cfg(),
        &b"".to_vec(),
    )
    .expect("encrypt");
    // The encrypted form of a binary document is JSON with a data entry.
    let v: serde_json::Value = serde_json::from_slice(&out).unwrap();
    assert!(v.get("sops").is_some());
    let dec = decrypt_bytes(&out, Format::Binary, &svc, false).expect("decrypt");
    assert_eq!(dec, data);
}

#[test]
fn roundtrip_shamir() {
    // Two key groups, threshold sharing across them.
    let svc = service(&["g1", "g2"]);
    let recipients = vec![
        vec![(KeyKind::Local, b"g1".to_vec())],
        vec![(KeyKind::Local, b"g2".to_vec())],
    ];
    let input = b"a: secret".to_vec();
    let out = encrypt_bytes(
        &input,
        Format::Yaml,
        &svc,
        &recipients,
        1,
        &default_cfg(),
        &b"".to_vec(),
    )
    .expect("encrypt with key groups");
    let dec = decrypt_bytes(&out, Format::Yaml, &svc, false).expect("decrypt");
    let s = String::from_utf8(dec).unwrap();
    assert!(s.contains("secret"));
}

#[test]
fn threshold_two_of_three() {
    let svc = service(&["g1", "g2", "g3"]);
    let recipients = vec![
        vec![(KeyKind::Local, b"g1".to_vec())],
        vec![(KeyKind::Local, b"g2".to_vec())],
        vec![(KeyKind::Local, b"g3".to_vec())],
    ];
    let input = b"a: secret".to_vec();
    let out = encrypt_bytes(
        &input,
        Format::Yaml,
        &svc,
        &recipients,
        2,
        &default_cfg(),
        &b"".to_vec(),
    )
    .expect("encrypt");
    // Any two groups suffice.
    let two = LocalKeyService {
        masters: vec![
            LocalMaster { id: b"g1".to_vec(), key: svc.masters[0].key.clone() },
            LocalMaster { id: b"g3".to_vec(), key: svc.masters[2].key.clone() },
        ],
    };
    let dec = decrypt_bytes(&out, Format::Yaml, &two, false).expect("two groups decrypt");
    assert!(String::from_utf8(dec).unwrap().contains("secret"));
}

#[test]
fn roundtrip_shamir_missing_decryption_key() {
    let svc = service(&["g1", "g2", "g3"]);
    let recipients = vec![
        vec![(KeyKind::Local, b"g1".to_vec())],
        vec![(KeyKind::Local, b"g2".to_vec())],
        vec![(KeyKind::Local, b"g3".to_vec())],
    ];
    let input = b"a: secret".to_vec();
    let out = encrypt_bytes(
        &input,
        Format::Yaml,
        &svc,
        &recipients,
        2,
        &default_cfg(),
        &b"".to_vec(),
    )
    .expect("encrypt");
    // One group is below the threshold.
    let one = LocalKeyService {
        masters: vec![LocalMaster { id: b"g2".to_vec(), key: svc.masters[1].key.clone() }],
    };
    let err = decrypt_bytes(&out, Format::Yaml, &one, false).unwrap_err();
    assert!(matches!(err, Error::KeyRecoveryError));
}

#[test]
fn test_decrypt_file_multiple_keys() {
    // Several redundant entries inside one group: any one key decrypts.
    let svc = service(&["k1", "k2"]);
    let recipients = vec![vec![
        (KeyKind::Local, b"k1".to_vec()),
        (KeyKind::Local, b"k2".to_vec()),
    ]];
    let input = b"a: secret".to_vec();
    let out = encrypt_bytes(
        &input,
        Format::Yaml,
        &svc,
        &recipients,
        0,
        &default_cfg(),
        &b"".to_vec(),
    )
    .expect("encrypt");
    let only_second = LocalKeyService {
        masters: vec![LocalMaster { id: b"k2".to_vec(), key: svc.masters[1].key.clone() }],
    };
    decrypt_bytes(&out, Format::Yaml, &only_second, false).expect("second key suffices");
}

#[test]
fn mac_mismatch_is_fatal_unless_waived() {
    let svc = service(&["k1"]);
    let input = b"{\"foo\": \"bar\"}".to_vec();
    let enc1 = encrypt_bytes(
        &input,
        Format::Json,
        &svc,
        &one_group("k1"),
        0,
        &default_cfg(),
        &b"".to_vec(),
    )
    .unwrap();
    let enc2 = encrypt_bytes(
        &input,
        Format::Json,
        &svc,
        &one_group("k1"),
        0,
        &default_cfg(),
        &b"".to_vec(),
    )
    .unwrap();
    // Splice the digest of the second document into the first: every value
    // still decrypts, but the stored digest no longer opens under the
    // first document's data key.
    let s1 = String::from_utf8(enc1).unwrap();
    let s2 = String::from_utf8(enc2).unwrap();
    let mac_of = |s: &str| -> (usize, usize) {
        let start = s.find("\"mac\": \"").unwrap() + 8;
        let end = start + s[start..].find('"').unwrap();
        (start, end)
    };
    let (a1, b1) = mac_of(&s1);
    let (a2, b2) = mac_of(&s2);
    let tampered = format!("{}{}{}", &s1[..a1], &s2[a2..b2], &s1[b1..]).into_bytes();
    let err = decrypt_bytes(&tampered, Format::Json, &svc, false).unwrap_err();
    assert!(matches!(err, Error::MacVerificationError));
    // Waiving the check downgrades the mismatch.
    decrypt_bytes(&tampered, Format::Json, &svc, true).expect("ignore-mac decrypts");
}

#[test]
fn tampered_ciphertext_fails_loudly() {
    let svc = service(&["k1"]);
    let input = b"{\"foo\": \"bar\"}".to_vec();
    let enc = encrypt_bytes(
        &input,
        Format::Json,
        &svc,
        &one_group("k1"),
        0,
        &default_cfg(),
        &b"".to_vec(),
    )
    .unwrap();
    // Flip one base64 character of the first value's data field.
    let s = String::from_utf8(enc).unwrap();
    let pos = s.find("data:").unwrap() + 5;
    let mut tampered = s.into_bytes();
    tampered[pos] = if tampered[pos] == b'A' { b'B' } else { b'A' };
    let err = decrypt_bytes(&tampered, Format::Json, &svc, false).unwrap_err();
    assert!(matches!(err, Error::CipherError));
}

#[test]
fn exclusion_suffix_keeps_subtree_cleartext() {
    let svc = service(&["k1"]);
    let input =
        b"a: topsecret\nnotes_unencrypted: keepme\ntree_unencrypted:\n  inner: keepme2"
            .to_vec();
    let out = encrypt_bytes(
        &input,
        Format::Yaml,
        &svc,
        &one_group("k1"),
        0,
        &default_cfg(),
        &b"".to_vec(),
    )
    .unwrap();
    let text = String::from_utf8(out.clone()).unwrap();
    assert!(!text.contains("topsecret"), "value was not encrypted");
    assert!(text.contains("keepme"), "excluded value must stay readable");
    assert!(text.contains("keepme2"), "the whole excluded subtree must stay readable");
    let dec = decrypt_bytes(&out, Format::Yaml, &svc, false).unwrap();
    let before = parse_document(&input, Format::Yaml).unwrap();
    let after = parse_document(&dec, Format::Yaml).unwrap();
    assert!(before == after);
}

#[test]
fn extract_string() {
    let svc = service(&["k1"]);
    let input = b"multiline: |\n  multi\n  line".to_vec();
    let out = encrypt_bytes(
        &input,
        Format::Yaml,
        &svc,
        &one_group("k1"),
        0,
        &default_cfg(),
        &b"".to_vec(),
    )
    .unwrap();
    let path = vec![sops::path::PathSeg::Key(b"multiline".to_vec())];
    let extracted = extract_bytes(&out, Format::Yaml, &svc, &path, false).unwrap();
    assert_eq!(extracted, b"multi\nline".to_vec());
}

#[test]
fn validate_python_yaml() {
    // The validation harness: one encryption, one decryption, same tree.
    let svc = service(&["m1"]);
    let input = b"example_key: example_value\nexample_number: 42".to_vec();
    let enc = encrypt_with_sops_python(&input, &svc, &b"m1".to_vec()).expect("encrypt");
    let dec = decrypt_with_sops_python(&enc, &svc).expect("decrypt");
    let before = parse_document(&input, Format::Yaml).unwrap();
    let after = parse_document(&dec, Format::Yaml).unwrap();
    assert!(before == after);
}

#[test]
fn validate_python_json() {
    let svc = service(&["m1"]);
    let input = b"{\"example_key\": \"example_value\", \"example_number\": 42}".to_vec();
    let enc = encrypt_bytes(
        &input,
        Format::Json,
        &svc,
        &one_group("m1"),
        0,
        &default_cfg(),
        &b"".to_vec(),
    )
    .unwrap();
    let dec = decrypt_bytes(&enc, Format::Json, &svc, false).unwrap();
    let before: serde_json::Value = serde_json::from_slice(&input).unwrap();
    let after: serde_json::Value = serde_json::from_slice(&dec).unwrap();
    assert_eq!(before, after);
}

#[test]
fn wrong_key_fails() {
    let svc = service(&["k1"]);
    let other = service(&["k1"]);  // same name, different random master key
    let input = b"a: 1".to_vec();
    let out = encrypt_bytes(
        &input,
        Format::Yaml,
        &svc,
        &one_group("k1"),
        0,
        &default_cfg(),
        &b"".to_vec(),
    )
    .unwrap();
    let err = decrypt_bytes(&out, Format::Yaml, &other, false).unwrap_err();
    assert!(matches!(err, Error::KeyRecoveryError));
}

#[test]
fn decrypt_file_no_mac() {
    // A document whose metadata lacks the stored digest is rejected, unless
    // the check is waived.
    let svc = service(&["k1"]);
    let input = b"{\"a\": \"secret\"}".to_vec();
    let enc = encrypt_bytes(
        &input,
        Format::Json,
        &svc,
        &one_group("k1"),
        0,
        &default_cfg(),
        &b"".to_vec(),
    )
    .unwrap();
    // Strip the mac entry out of the metadata block.
    let text = String::from_utf8(enc).unwrap();
    let start = text.find("\"mac\": \"").unwrap();
    let end = start + 8 + text[start + 8..].find('"').unwrap();
    let no_mac = format!("{}{}", &text[..start], &text[end + 3..]);
    assert!(no_mac.contains("key_groups"), "the rest of the metadata must survive");
    let err = decrypt_bytes(&no_mac.clone().into_bytes(), Format::Json, &svc, false)
        .unwrap_err();
    assert!(matches!(err, Error::MacVerificationError));
    let dec = decrypt_bytes(&no_mac.into_bytes(), Format::Json, &svc, true)
        .expect("the waived check decrypts a document without a digest");
    let before: serde_json::Value = serde_json::from_slice(&input).unwrap();
    let after: serde_json::Value = serde_json::from_slice(&dec).unwrap();
    assert_eq!(before, after);
}

#[test]
fn unparsable_input_is_rejected_by_encrypt() {
    let svc = service(&["k1"]);
    let garbage = b"{\"a\": ".to_vec();
    let err = encrypt_bytes(
        &garbage,
        Format::Json,
        &svc,
        &one_group("k1"),
        0,
        &default_cfg(),
        &b"".to_vec(),
    )
    .unwrap_err();
    assert!(matches!(err, Error::ParseError));
}

#[test]
fn already_encrypted_input_is_rejected() {
    let svc = service(&["k1"]);
    let input = b"{\"a\": 1}".to_vec();
    let enc = encrypt_bytes(
        &input,
        Format::Json,
        &svc,
        &one_group("k1"),
        0,
        &default_cfg(),
        &b"".to_vec(),
    )
    .unwrap();
    let err = encrypt_bytes(
        &enc,
        Format::Json,
        &svc,
        &one_group("k1"),
        0,
        &default_cfg(),
        &b"".to_vec(),
    )
    .unwrap_err();
    assert!(matches!(err, Error::ParseError));
}
