use recrypt::auth::cbor::Value;
use recrypt::auth::error::AuthError;

#[test]
fn roundtrip_primitives() {
    for v in [
        Value::Uint(0),
        Value::Uint(23),
        Value::Uint(24),
        Value::Uint(255),
        Value::Uint(256),
        Value::Uint(65535),
        Value::Uint(65536),
        Value::Uint(u32::MAX as u64),
        Value::Uint(u32::MAX as u64 + 1),
        Value::Uint(u64::MAX),
        Value::Bytes(vec![]),
        Value::Bytes(vec![0, 255, 7]),
        Value::Text("".into()),
        Value::Text("identikey-auth/v1".into()),
    ] {
        let bytes = v.to_bytes();
        assert_eq!(Value::from_bytes(&bytes).unwrap(), v, "roundtrip {v:?}");
    }
}

#[test]
fn map_is_canonically_sorted() {
    let m = recrypt::auth::cbor::map(vec![
        ("nonce", Value::Bytes(vec![1, 2, 3])),
        ("v", Value::Uint(1)),
        ("aud", Value::Text("papyrus".into())),
        ("exp", Value::Uint(200)),
        ("iat", Value::Uint(100)),
    ]);
    let bytes = m.to_bytes();
    let decoded = Value::from_bytes(&bytes).unwrap();
    assert_eq!(decoded.get("v").unwrap().as_uint().unwrap(), 1);
    assert_eq!(decoded.get("aud").unwrap().as_text().unwrap(), "papyrus");
    assert_eq!(decoded.to_bytes(), bytes);
}

#[test]
fn rejects_noncanonical_integer() {
    assert!(Value::from_bytes(&[0x18, 0x05]).is_err());
}

#[test]
fn rejects_unsorted_map_keys() {
    let bytes = [0xa2, 0x61, b'b', 0x01, 0x61, b'a', 0x02];
    assert!(Value::from_bytes(&bytes).is_err());
}

#[test]
fn rejects_duplicate_map_keys() {
    let bytes = [0xa2, 0x61, b'a', 0x01, 0x61, b'a', 0x02];
    assert!(Value::from_bytes(&bytes).is_err());
}

#[test]
fn rejects_trailing_bytes() {
    let mut bytes = Value::Uint(1).to_bytes();
    bytes.push(0x00);
    assert!(Value::from_bytes(&bytes).is_err());
}

#[test]
fn rejects_truncated_input() {
    assert!(Value::from_bytes(&[0x44, 0x00]).is_err());
}

#[test]
fn cbor_exact_encodings() {
    assert_eq!(Value::Uint(23).to_bytes(), vec![0x17]);
    assert_eq!(Value::Uint(24).to_bytes(), vec![0x18, 0x18]);
    assert_eq!(Value::Uint(256).to_bytes(), vec![0x19, 0x01, 0x00]);
    assert_eq!(Value::Bytes(vec![1, 2]).to_bytes(), vec![0x42, 1, 2]);
    assert_eq!(Value::Text("a".into()).to_bytes(), vec![0x61, b'a']);
    let m = recrypt::auth::cbor::map(vec![("b", Value::Uint(1)), ("a", Value::Uint(2))]);
    // keys come out sorted by their encodings
    assert_eq!(m.to_bytes(), vec![0xa2, 0x61, b'a', 0x02, 0x61, b'b', 0x01]);
    assert_eq!(
        Value::Array(vec![Value::Uint(1), Value::Text("x".into())]).to_bytes(),
        vec![0x82, 0x01, 0x61, b'x']
    );
}

#[test]
fn cbor_accessor_errors() {
    let v = Value::Uint(3);
    assert!(matches!(v.as_bytes(), Err(AuthError::Cbor(_))));
    assert!(matches!(v.get("v"), Err(AuthError::Cbor(_))));
    let m = recrypt::auth::cbor::map(vec![("v", Value::Uint(1))]);
    assert!(matches!(m.get("aud"), Err(AuthError::MissingField("aud"))));
    assert!(m.get_opt("aud").unwrap().is_none());
    assert!(matches!(Value::from_bytes(&[0xe0]), Err(AuthError::Cbor(_))));
}

#[test]
fn map_encoding_ignores_entry_order() {
    let make = || {
        vec![
            ("nonce".to_string(), Value::Bytes(vec![1, 2, 3])),
            ("v".to_string(), Value::Uint(1)),
            ("exp".to_string(), Value::Uint(200)),
            ("aud".to_string(), Value::Text("x".into())),
            ("iat".to_string(), Value::Uint(100)),
        ]
    };
    let entries = make();
    let mut reversed = make();
    reversed.reverse();
    let a = Value::TextMap(entries).to_bytes();
    let b = Value::TextMap(reversed).to_bytes();
    assert_eq!(a, b);
    // Keys come out shortest first, then bytewise: v, aud, exp, iat, nonce.
    assert_eq!(a[0], 0xa5);
    assert_eq!(&a[1..3], &[0x61, b'v']);
    assert_eq!(&a[4..8], &[0x63, b'a', b'u', b'd']);
}

#[test]
fn decoding_puts_map_entries_in_key_order() {
    let given = Value::TextMap(vec![
        ("nonce".to_string(), Value::Uint(3)),
        ("aud".to_string(), Value::Array(vec![Value::TextMap(vec![
            ("zz".to_string(), Value::Uint(1)),
            ("b".to_string(), Value::Uint(2)),
        ])])),
        ("v".to_string(), Value::Uint(1)),
    ]);
    let sorted = Value::TextMap(vec![
        ("v".to_string(), Value::Uint(1)),
        ("aud".to_string(), Value::Array(vec![Value::TextMap(vec![
            ("b".to_string(), Value::Uint(2)),
            ("zz".to_string(), Value::Uint(1)),
        ])])),
        ("nonce".to_string(), Value::Uint(3)),
    ]);
    assert_eq!(Value::from_bytes(&given.to_bytes()).unwrap(), sorted);
    assert_eq!(Value::from_bytes(&sorted.to_bytes()).unwrap(), sorted);
}
