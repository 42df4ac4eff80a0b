use lux_patcher::crc::calculate_crc;

#[test]
fn crc_normalization_example() {
    assert_eq!(
        calculate_crc(b"Client/res/foo.nif"),
        calculate_crc(b"client\\res\\foo.nif")
    );
    assert_eq!(calculate_crc(b"Client/res/foo.nif"), 0x082241dd);
}

#[test]
fn crc_empty_baseline() {
    // The register after nothing but the four trailing zero-byte rounds.
    assert_eq!(calculate_crc(b""), 0xC704DD7B);
}

#[test]
fn crc_deterministic() {
    let a = calculate_crc(b"client/res/mesh.nif");
    let b = calculate_crc(b"client/res/mesh.nif");
    assert_eq!(a, b);
}

#[test]
fn crc_case_and_slash_insensitive() {
    assert_eq!(calculate_crc(b"A/B"), calculate_crc(b"a\\b"));
    assert_ne!(calculate_crc(b"a/b"), calculate_crc(b"a/c"));
}
