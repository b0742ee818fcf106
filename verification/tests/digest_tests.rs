use bfme2_manager::checksums::{calculate_hash, md5sum, to_hex_string};

#[test]
fn md5_of_empty_input() {
    let digest = md5sum(&[]).unwrap();
    assert_eq!(to_hex_string(&digest), "d41d8cd98f00b204e9800998ecf8427e");
}

#[test]
fn md5_of_known_bytes() {
    assert_eq!(
        calculate_hash(b"hello").unwrap(),
        "5d41402abc4b2a76b9719d911017c592"
    );
}

#[test]
fn md5_of_input_longer_than_one_buffer() {
    // 3000 bytes forces several 1024-byte chunks through the hasher.
    let data = vec![b'a'; 3000];
    assert_eq!(
        calculate_hash(&data).unwrap(),
        "6ca003d00c9bb4569a4a27d751db7a89"
    );
}

#[test]
fn chunked_digest_matches_single_shot_digest() {
    // The library feeds the hasher chunk by chunk; the md-5 crate digesting
    // the same bytes in one call must agree.
    let data: Vec<u8> = (0u32..5000).map(|i| (i % 251) as u8).collect();
    let direct = <md5::Md5 as md5::Digest>::digest(&data);
    let direct_hex: String = direct.iter().map(|b| format!("{:02x}", b)).collect();
    assert_eq!(calculate_hash(&data).unwrap(), direct_hex);
}

#[test]
fn hex_rendering_is_lowercase_two_digits_per_byte() {
    assert_eq!(to_hex_string(&vec![0x00, 0xff, 0x0a, 0xb0]), "00ff0ab0");
}

#[test]
fn digest_is_32_hex_chars() {
    let hex = calculate_hash(b"anything").unwrap();
    assert_eq!(hex.len(), 32);
    assert!(hex.chars().all(|c| c.is_ascii_hexdigit() && !c.is_ascii_uppercase()));
}
