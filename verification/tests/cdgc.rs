use contract_conformance_guard::cdgc::{
    nonce_from_nanos, nonce_from_time, percent_encode, CachedContract,
};
use std::time::{Duration, SystemTime};

#[test]
fn encodes() {
    assert_eq!(percent_encode("a b/c"), "a%20b%2Fc");
    assert_eq!(percent_encode("BT-47_x.y~z"), "BT-47_x.y~z");
}

#[test]
fn every_other_byte_is_encoded() {
    assert_eq!(percent_encode(""), "");
    assert_eq!(percent_encode("%"), "%25");
    assert_eq!(percent_encode("\u{0}\u{7f}"), "%00%7F");
    assert_eq!(percent_encode("é€"), "%C3%A9%E2%82%AC");
    for b in 0u8..128 {
        let c = b as char;
        let one = percent_encode(&c.to_string());
        if c.is_ascii_alphanumeric() || "-_.~".contains(c) {
            assert_eq!(one, c.to_string());
        } else {
            assert_eq!(one, format!("%{b:02X}"));
        }
    }
}

#[test]
fn an_encoded_value_decodes_back() {
    for value in ["a b/c", "%41", "é€\u{0}", "BT-47_x.y~z", ""] {
        let encoded = percent_encode(value);
        let mut bytes = Vec::new();
        let mut rest = encoded.as_bytes();
        while let Some((&first, tail)) = rest.split_first() {
            if first == b'%' {
                let digits = std::str::from_utf8(&tail[..2]).expect("digits");
                assert_eq!(digits, digits.to_uppercase());
                bytes.push(u8::from_str_radix(digits, 16).expect("a byte"));
                rest = &tail[2..];
            } else {
                bytes.push(first);
                rest = tail;
            }
        }
        assert_eq!(bytes, value.as_bytes());
    }
}

#[test]
fn different_values_are_encoded_differently() {
    let values = ["a b", "a%20b", "a+b", "a/b", "a%2Fb", "ab", ""];
    for (i, x) in values.iter().enumerate() {
        for y in &values[i + 1..] {
            assert_ne!(percent_encode(x), percent_encode(y));
        }
    }
}

#[test]
fn a_nonce_counts_nanoseconds() {
    let t = SystemTime::UNIX_EPOCH + Duration::new(1_700_000_000, 123_456_789);
    assert_eq!(nonce_from_time(t), "1700000000123456789");
    assert_eq!(nonce_from_time(SystemTime::UNIX_EPOCH), "0");
    assert_eq!(nonce_from_time(SystemTime::UNIX_EPOCH - Duration::from_secs(5)), "0");
    assert_eq!(nonce_from_nanos(Some(u128::MAX)), u128::MAX.to_string());
    assert_eq!(nonce_from_nanos(None), "0");
}

#[test]
fn a_default_contract_is_empty() {
    let c = CachedContract::default();
    assert!(c.fields.is_empty() && c.name.is_none() && c.external_id.is_none());
    assert_eq!(c.timestamp, 0);
}
