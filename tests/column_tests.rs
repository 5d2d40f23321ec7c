use chronicle_cql::bytes::{string, string_list, DecodeError};
use chronicle_cql::column::{ColumnDecoder, ColumnEncoder, IpAddr};
use chronicle_cql::trytes::{InvalidLength, Trytes27, Trytes81};
use std::collections::HashMap;

fn encoded<T: ColumnEncoder>(v: T) -> Vec<u8> {
    let mut buffer = Vec::new();
    v.encode(&mut buffer);
    buffer
}

#[test]
fn scalar_round_trips() {
    let b = encoded(-5i32);
    assert_eq!(b, vec![0, 0, 0, 4, 0xff, 0xff, 0xff, 0xfb]);
    assert_eq!(i32::decode(&b[4..], 4), Ok(-5));

    let b = encoded(0x0102_0304_0506_0708u64);
    assert_eq!(b, vec![0, 0, 0, 8, 1, 2, 3, 4, 5, 6, 7, 8]);
    assert_eq!(u64::decode(&b[4..], 8), Ok(0x0102_0304_0506_0708));

    let b = encoded(i64::MIN);
    assert_eq!(i64::decode(&b[4..], 8), Ok(i64::MIN));
    let b = encoded(i64::MAX);
    assert_eq!(i64::decode(&b[4..], 8), Ok(i64::MAX));
    let b = encoded(-1i64);
    assert_eq!(&b[4..], &[0xff; 8]);
    assert_eq!(i64::decode(&b[4..], 8), Ok(-1));

    let b = encoded(-300i16);
    assert_eq!(b, vec![0, 0, 0, 2, 0xfe, 0xd4]);
    assert_eq!(i16::decode(&b[4..], 2), Ok(-300));
    let b = encoded(65535u16);
    assert_eq!(u16::decode(&b[4..], 2), Ok(65535));
    let b = encoded(-128i8);
    assert_eq!(b, vec![0, 0, 0, 1, 0x80]);
    assert_eq!(i8::decode(&b[4..], 1), Ok(-128));
    let b = encoded(200u8);
    assert_eq!(u8::decode(&b[4..], 1), Ok(200));
    let b = encoded(4_000_000_000u32);
    assert_eq!(u32::decode(&b[4..], 4), Ok(4_000_000_000));
}

#[test]
fn scalar_declared_length_must_match() {
    assert_eq!(
        i32::decode(&[0, 0, 0, 1, 9], 5),
        Err(DecodeError::LengthMismatch { expected: 4, actual: 5 })
    );
    assert!(u8::decode(&[7], 2).is_err());
    assert_eq!(
        u64::decode(&[0, 0, 0], 8),
        Err(DecodeError::Truncated { offset: 0, needed: 8 })
    );
}

#[test]
fn string_column() {
    assert_eq!(String::decode(b"hello world", 5), Ok("hello".to_string()));
    assert_eq!(String::decode(&[0xff, 0xfe], 2), Err(DecodeError::InvalidUtf8));
    assert!(String::decode(b"abc", 4).is_err());
    assert_eq!(String::decode("é!".as_bytes(), 2), Ok("é".to_string()));
}

#[test]
fn ip_addresses() {
    assert_eq!(
        IpAddr::decode(&[192, 168, 1, 1], 4).map(|a| match a {
            IpAddr::V4(v4) => v4.octets,
            IpAddr::V6(_) => [0; 4],
        }),
        Ok([192, 168, 1, 1])
    );
    let mut six = [0u8; 16];
    six[15] = 1;
    match IpAddr::decode(&six, 16) {
        Ok(IpAddr::V6(a)) => assert_eq!(a.segments, [0, 0, 0, 0, 0, 0, 0, 1]),
        _ => panic!("expected an IPv6 address"),
    }
    let doc = [0x20, 0x01, 0x0d, 0xb8, 0, 0, 0, 0, 0, 0, 0, 0, 0, 0, 0x12, 0x34];
    match IpAddr::decode(&doc, 16) {
        Ok(IpAddr::V6(a)) => assert_eq!(a.segments, [0x2001, 0xdb8, 0, 0, 0, 0, 0, 0x1234]),
        _ => panic!("expected an IPv6 address"),
    }
    assert!(IpAddr::decode(&[1, 2, 3], 4).is_err());
}

#[test]
fn list_of_ints() {
    let bytes = [0, 0, 0, 2, 0, 0, 0, 4, 0, 0, 0, 1, 0, 0, 0, 4, 0, 0, 0, 2, 99, 99];
    assert_eq!(Vec::<i32>::decode(&bytes, 0), Ok(vec![1, 2]));
    assert_eq!(Vec::<i32>::decode(&[0, 0, 0, 0], 4), Ok(vec![]));
}

#[test]
fn list_stops_at_its_last_element() {
    let full = [0, 0, 0, 1, 0, 0, 0, 1, 7];
    assert_eq!(Vec::<u8>::decode(&full, 9), Ok(vec![7]));
    let mut longer = full.to_vec();
    longer.extend_from_slice(&[0xff; 10]);
    assert_eq!(Vec::<u8>::decode(&longer, 19), Ok(vec![7]));
    assert!(Vec::<u8>::decode(&full[..8], 8).is_err());
}

#[test]
fn list_errors() {
    assert_eq!(
        Vec::<i32>::decode(&[0, 0, 0, 1, 0, 0, 0, 4, 0, 0], 0),
        Err(DecodeError::Truncated { offset: 8, needed: 4 })
    );
    assert_eq!(
        Vec::<i32>::decode(&[0xff, 0xff, 0xff, 0xff], 0),
        Err(DecodeError::NegativeLength { offset: 0 })
    );
    assert_eq!(
        Vec::<i32>::decode(&[0, 0, 0, 1, 0xff, 0xff, 0xff, 0xff], 0),
        Err(DecodeError::NegativeLength { offset: 4 })
    );
    assert_eq!(
        Vec::<i32>::decode(&[0, 0, 0, 1, 0, 0, 0, 2, 0, 1], 0),
        Err(DecodeError::LengthMismatch { expected: 4, actual: 2 })
    );
}

#[test]
fn nested_lists() {
    let inner_a = [0u8, 0, 0, 1, 0, 0, 0, 1, 5];
    let inner_b = [0u8, 0, 0, 2, 0, 0, 0, 1, 6, 0, 0, 0, 1, 7];
    let mut bytes = vec![0, 0, 0, 2, 0, 0, 0, inner_a.len() as u8];
    bytes.extend_from_slice(&inner_a);
    bytes.extend_from_slice(&[0, 0, 0, inner_b.len() as u8]);
    bytes.extend_from_slice(&inner_b);
    assert_eq!(Vec::<Vec<u8>>::decode(&bytes, bytes.len()), Ok(vec![vec![5], vec![6, 7]]));
}

fn map_bytes(pairs: &[(&str, i32)]) -> Vec<u8> {
    let mut bytes = vec![0, 0, 0, pairs.len() as u8];
    for (k, v) in pairs {
        bytes.extend_from_slice(&[0, 0, 0, k.len() as u8]);
        bytes.extend_from_slice(k.as_bytes());
        bytes.extend_from_slice(&[0, 0, 0, 4]);
        bytes.extend_from_slice(&v.to_be_bytes());
    }
    bytes
}

#[test]
fn map_of_two_pairs() {
    let forward = map_bytes(&[("a", 1), ("b", 2)]);
    let backward = map_bytes(&[("b", 2), ("a", 1)]);
    let m1: HashMap<String, i32> = HashMap::decode(&forward, forward.len()).unwrap();
    let m2: HashMap<String, i32> = HashMap::decode(&backward, backward.len()).unwrap();
    assert_eq!(m1.len(), 2);
    assert_eq!(m1.get("a"), Some(&1));
    assert_eq!(m1.get("b"), Some(&2));
    assert_eq!(m1, m2);
}

#[test]
fn map_last_pair_wins() {
    let bytes = map_bytes(&[("k", 1), ("k", 9)]);
    let m: HashMap<String, i32> = HashMap::decode(&bytes, bytes.len()).unwrap();
    assert_eq!(m.len(), 1);
    assert_eq!(m.get("k"), Some(&9));
}

#[test]
fn map_of_lists_and_errors() {
    let mut bytes = vec![0, 0, 0, 1, 0, 0, 0, 4, 0, 0, 0, 3, 0, 0, 0, 9];
    bytes.extend_from_slice(&[0, 0, 0, 1, 0, 0, 0, 1, 8]);
    let m: HashMap<i32, Vec<u8>> = HashMap::decode(&bytes, bytes.len()).unwrap();
    assert_eq!(m.get(&3), Some(&vec![8]));
    assert!(HashMap::<i32, Vec<u8>>::decode(&bytes[..bytes.len() - 1], 0).is_err());
    let bad_value = map_bytes(&[("a", 1)]);
    assert!(HashMap::<String, String>::decode(&bad_value[..bad_value.len() - 1], 0).is_err());
}

fn tryte_text(n: usize) -> String {
    "ABCDEFGHIJKLMNOPQRSTUVWXYZ9".chars().cycle().take(n).collect()
}

#[test]
fn trytes81_from_text() {
    let text = tryte_text(81);
    let t = Trytes81::from_text(&text).ok().unwrap();
    assert_eq!(&t.0[..], text.as_bytes());
    assert_eq!(t.to_text(), Ok(text.clone()));
    assert_eq!(
        Trytes81::from_text(&tryte_text(80)).err(),
        Some(InvalidLength { required: 81, actual: 80 })
    );
    assert_eq!(
        Trytes81::from_text(&tryte_text(82)).err(),
        Some(InvalidLength { required: 81, actual: 82 })
    );
}

#[test]
fn trytes81_column() {
    let text = tryte_text(81);
    let t = Trytes81::from_text(&text).ok().unwrap();
    let mut buffer = vec![9];
    t.encode(&mut buffer);
    assert_eq!(&buffer[..5], &[9, 0, 0, 0, 81]);
    assert_eq!(&buffer[5..], text.as_bytes());
    let back = Trytes81::decode(&buffer[5..], 81).ok().unwrap();
    assert_eq!(back.0, t.0);
    assert!(Trytes81::decode(&buffer[6..], 81).is_err());
}

#[test]
fn trytes27_text_and_column() {
    let text = tryte_text(27);
    let t = Trytes27::from_text(&text).ok().unwrap();
    let mut buffer = Vec::new();
    t.encode(&mut buffer);
    assert_eq!(&buffer[..4], &[0, 0, 0, 27]);
    assert_eq!(Trytes27::decode(&buffer[4..], 27).ok().unwrap().0, t.0);
    assert_eq!(
        Trytes27::from_text(&tryte_text(26)).err(),
        Some(InvalidLength { required: 27, actual: 26 })
    );
    let raw = Trytes27([0xff; 27]);
    assert_eq!(raw.to_text(), Err(DecodeError::InvalidUtf8));
}

#[test]
fn short_strings() {
    assert_eq!(string(&[0, 3, b'a', b'b', b'c', b'd']), Ok("abc".to_string()));
    assert_eq!(string(&[0, 2, 0xc3, 0xa9]), Ok("é".to_string()));
    assert_eq!(string(&[0, 2, 0xff, 0xfe]), Err(DecodeError::InvalidUtf8));
    assert!(string(&[0, 5, b'a']).is_err());
    assert_eq!(chronicle_cql::bytes::str(&[0, 1, b'x']), Ok("x"));
}

#[test]
fn string_lists() {
    let bytes = [0, 2, 0, 2, b'h', b'i', 0, 3, 0xff, b'o', b'k'];
    assert_eq!(
        string_list(&bytes),
        Ok(vec!["hi".to_string(), "\u{fffd}ok".to_string()])
    );
    assert_eq!(string_list(&[0, 0]), Ok(vec![]));
    assert!(string_list(&[0, 1, 0, 4, b'a']).is_err());
    assert!(string_list(&[0]).is_err());
}

#[test]
fn string_column_encoding() {
    let b = encoded("héllo".to_string());
    assert_eq!(&b[..4], &[0, 0, 0, 6]);
    assert_eq!(&b[4..], "héllo".as_bytes());
    assert_eq!(String::decode(&b[4..], 6), Ok("héllo".to_string()));
}
