use lookup_index::errors::CodecError;
use lookup_index::keys::{DatabaseLookupKey, DatabaseLookupValue, TenantId, encode_key_bytes};

#[test]
fn round_trip_ascii_name() {
    let key = DatabaseLookupKey::new(TenantId(42), String::from("alpha"));
    let bytes = key.ser().unwrap();
    let back = DatabaseLookupKey::de(bytes.as_slice()).unwrap();
    assert_eq!(back, key);
    assert_eq!(back.get_database_name(), String::from("alpha"));
    assert_eq!(back.tenant_id(), TenantId(42));
}

#[test]
fn round_trip_empty_name() {
    let key = DatabaseLookupKey::new(TenantId(0), String::new());
    let bytes = key.ser().unwrap();
    // 16 tenant bytes, 4 delimiter bytes, 1 length byte, no name bytes
    assert_eq!(bytes.len(), 21);
    let back = DatabaseLookupKey::de(bytes.as_slice()).unwrap();
    assert_eq!(back, key);
    assert_eq!(back.get_database_name(), String::new());
}

#[test]
fn round_trip_multibyte_name_with_delimiter_char() {
    // the name holds two-, three- and four-byte characters, among them the
    // delimiter's own literal character
    let name = String::from("caf\u{e9}_\u{6570}\u{636e}_\u{1F40B}");
    let key = DatabaseLookupKey::new(TenantId(u128::MAX), name.clone());
    let bytes = key.ser().unwrap();
    let back = DatabaseLookupKey::de(bytes.as_slice()).unwrap();
    assert_eq!(back, key);
    assert_eq!(back.get_database_name(), name);
}

#[test]
fn serialized_layout_is_stable() {
    let key = DatabaseLookupKey::new(TenantId(1), String::from("ab"));
    let bytes = key.ser().unwrap();
    let mut expected: Vec<u8> = vec![0; 15];
    expected.push(1); // tenant id, big-endian
    expected.extend_from_slice(&[0x00, 0x01, 0xF4, 0x0B]); // delimiter code point
    expected.push(2); // name length prefix
    expected.extend_from_slice(b"ab");
    assert_eq!(bytes, expected);
}

#[test]
fn truncated_buffer_is_a_decode_error() {
    let key = DatabaseLookupKey::new(TenantId(7), String::from("somedatabase"));
    let bytes = key.ser().unwrap();
    for n in 0..bytes.len() {
        let cut = &bytes[..n];
        let r = DatabaseLookupKey::de(cut);
        assert!(r.is_err(), "truncation to {} bytes must fail", n);
    }
    // ten bytes of a key needing more than twenty
    assert_eq!(
        DatabaseLookupKey::de(&bytes[..10]),
        Err(CodecError::Truncated)
    );
}

#[test]
fn name_bytes_past_the_length_prefix_must_exist() {
    let mut bytes = encode_key_bytes(TenantId(9), "");
    // pretend five name bytes follow, but supply only two
    bytes[20] = 5;
    bytes.push(b'a');
    bytes.push(b'b');
    assert_eq!(
        DatabaseLookupKey::de(bytes.as_slice()),
        Err(CodecError::Truncated)
    );
}

#[test]
fn invalid_utf8_is_a_decode_error() {
    let mut bytes = encode_key_bytes(TenantId(9), "");
    bytes[20] = 2;
    bytes.push(0xFF);
    bytes.push(0xFE);
    assert_eq!(
        DatabaseLookupKey::de(bytes.as_slice()),
        Err(CodecError::InvalidUtf8)
    );
}

#[test]
fn oversized_length_prefix_is_a_decode_error() {
    let mut bytes = encode_key_bytes(TenantId(9), "");
    // a ten-byte length prefix encoding a value past 64 bits
    bytes.truncate(20);
    for _ in 0..9 {
        bytes.push(0xFF);
    }
    bytes.push(0x7F);
    assert_eq!(
        DatabaseLookupKey::de(bytes.as_slice()),
        Err(CodecError::LengthOverflow)
    );
}

#[test]
fn shorter_name_sorts_first_whatever_its_characters() {
    // an artifact of the length-prefixed layout: the one-byte length
    // prefix sorts before the name bytes do
    let tenant = TenantId(5);
    let ka = encode_key_bytes(tenant, "b");
    let kb = encode_key_bytes(tenant, "aa");
    assert!(ka < kb);
}

#[test]
fn order_preservation_same_length_names() {
    let tenant = TenantId(5);
    let pairs = [
        ("apple", "berry"),
        ("aa", "ab"),
        ("A", "a"),
        ("0000", "0001"),
    ];
    for (a, b) in pairs {
        let ea = encode_key_bytes(tenant, a);
        let eb = encode_key_bytes(tenant, b);
        assert!(a < b);
        assert!(ea < eb, "{} must encode below {}", a, b);
        assert!(!(eb <= ea));
    }
    // two four-byte scalars, ordered by code point
    let lo = encode_key_bytes(tenant, "\u{1F40A}");
    let hi = encode_key_bytes(tenant, "\u{1F40B}");
    assert!(lo < hi);
}

#[test]
fn value_round_trip_and_length_check() {
    let v = DatabaseLookupValue(123456789);
    let bytes = v.ser();
    assert_eq!(bytes.len(), 8);
    assert_eq!(DatabaseLookupValue::de(bytes.as_slice()).unwrap(), v);
    assert_eq!(
        DatabaseLookupValue::de(&bytes[..7]),
        Err(CodecError::Truncated)
    );
    let nine = vec![0u8; 9];
    assert_eq!(
        DatabaseLookupValue::de(nine.as_slice()),
        Err(CodecError::Truncated)
    );
    assert_eq!(DatabaseLookupValue::default().0, 0);
}
