use autokeyboardlayot_core::package_signing::{
    decode_key, decode_public_key_hex, key_entropy, signing_input_kind, SigningInputKind,
};
use ed25519_dalek::SigningKey;

// Deliberately public fixture seed.
fn fixture() -> (Vec<u8>, [u8; 32]) {
    let mut der = vec![
        0x30, 0x2e, 0x02, 0x01, 0x00, 0x30, 0x05, 0x06, 0x03, 0x2b, 0x65, 0x70, 0x04, 0x22, 0x04, 0x20,
    ];
    der.extend_from_slice(&[42; 32]);
    (der, SigningKey::from_bytes(&[42; 32]).verifying_key().to_bytes())
}

#[test]
fn strict_der_and_public_identity() {
    let (der, public) = fixture();
    assert!(decode_key(&der, &public).is_ok());
    for length in 0..48 {
        assert!(decode_key(&der[..length], &public).is_err());
    }
    let mut trailing = der.clone();
    trailing.push(0);
    assert!(decode_key(&trailing, &public).is_err());
    for index in 0..16 {
        let mut altered = der.clone();
        altered[index] ^= 1;
        assert!(decode_key(&altered, &public).is_err());
    }
    assert!(decode_key(&der, &[0; 32]).is_err());
}

#[test]
fn decoded_key_is_the_seed_and_errors_are_distinguished() {
    let (der, public) = fixture();
    let key = decode_key(&der, &public).unwrap();
    assert_eq!(key.to_bytes(), [42; 32]);
    assert_eq!(decode_key(&der[..47], &public).err(), Some("private key encoding"));
    assert_eq!(decode_key(&der, &[0; 32]).err(), Some("private key identity"));
}

#[test]
fn entropy_binds_the_purpose_signer_and_public_key() {
    let entropy = key_entropy("release", "00ff");
    assert_eq!(entropy, b"AutoKeyboardLayot.package-signing.dpapi.v1\0release\000ff".to_vec());
    assert_eq!(key_entropy("подпись", "").len(), 42 + 1 + 14 + 1);
}

#[test]
fn signing_runs_accept_two_kinds_with_their_limits() {
    assert_eq!(signing_input_kind("package"), Some((SigningInputKind::Package, 64 * 1024 * 1024)));
    assert_eq!(signing_input_kind("catalog"), Some((SigningInputKind::Catalog, 1024 * 1024)));
    assert_eq!(signing_input_kind("Package"), None);
    assert_eq!(signing_input_kind(""), None);
}

#[test]
fn public_key_hex_is_read_in_pairs() {
    let hex = "00ff10aB".repeat(8);
    let key = decode_public_key_hex(&hex).unwrap();
    assert_eq!(&key[..4], &[0x00, 0xff, 0x10, 0xab]);
    assert_eq!(key[31], 0xab);
    let signed = format!("+f{}", &hex[2..]);
    assert_eq!(decode_public_key_hex(&signed).unwrap()[0], 0x0f);
    assert_eq!(decode_public_key_hex(&hex[..62]), Err("public key"));
    assert_eq!(decode_public_key_hex(&format!("zz{}", &hex[2..])), Err("public key"));
    assert_eq!(decode_public_key_hex(&format!("-1{}", &hex[2..])), Err("public key"));
    let expected = u8::from_str_radix("+f", 16).unwrap();
    assert_eq!(expected, 0x0f);
}
