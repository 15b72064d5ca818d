//! The path-safe cache key encoding.

use libmuse::pathcode::{decode_path_segment, encode_path_segment};

#[test]
fn encode_known_values() {
    assert_eq!(encode_path_segment(b"ab"), b"YWI".to_vec());
    assert_eq!(encode_path_segment(b""), b"".to_vec());
    assert_eq!(encode_path_segment(b"abc"), b"YWJj".to_vec());
    assert_eq!(encode_path_segment(&[0u8]), b"AA".to_vec());
}

#[test]
fn encoded_names_are_path_safe() {
    let e = encode_path_segment(b"https://github.com/owner/repo?x=1");
    for b in e {
        let ok = b.is_ascii_alphanumeric() || b == b'-' || b == b'_';
        assert!(ok);
    }
}

#[test]
fn roundtrip_url() {
    let key = b"https://github.com/nightcycle/some-repo".to_vec();
    let e = encode_path_segment(&key);
    assert_ne!(e, key);
    assert_eq!(decode_path_segment(&e), Some(key));
}

#[test]
fn roundtrip_version_text() {
    let key = b"1.2.3-beta.1".to_vec();
    let e = encode_path_segment(&key);
    assert_eq!(decode_path_segment(&e), Some(key));
}

#[test]
fn roundtrip_arbitrary_bytes() {
    let key = vec![0u8, 255, 10, 47, 92, 128, 7];
    let e = encode_path_segment(&key);
    assert_eq!(decode_path_segment(&e), Some(key));
}

#[test]
fn decode_rejects_foreign_names() {
    assert_eq!(decode_path_segment(b"!!"), None);
    // Padded input is not a canonical unpadded name.
    assert_eq!(decode_path_segment(b"AA=="), None);
    // Non-zero trailing bits cannot come out of the encoder.
    assert_eq!(decode_path_segment(b"AB"), None);
    assert_eq!(decode_path_segment(b"AA"), Some(vec![0u8]));
}
