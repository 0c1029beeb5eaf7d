use autokeyboardlayot_core::package_store::{
    artifact_matches, blob_name, check_artifact, check_state_integrity, check_supplied_artifacts, hex,
    parse_pointer, pointer_bytes, state_entry, state_name, ArtifactReceipt, StoreError,
};

const ABC_SHA256: &str = "ba7816bf8f01cfea414140de5dae2223b00361a396177a9cb410ff61f20015ad";

fn abc_hash() -> [u8; 32] {
    let mut hash = [0u8; 32];
    for (index, byte) in hash.iter_mut().enumerate() {
        *byte = u8::from_str_radix(&ABC_SHA256[2 * index..2 * index + 2], 16).unwrap();
    }
    hash
}

#[test]
fn hex_is_lower_case_and_two_digits_per_byte() {
    assert_eq!(hex(&[0x00, 0x0f, 0xa0, 0xff]), "000fa0ff");
    assert_eq!(hex(&[]), "");
}

#[test]
fn files_are_named_by_the_hash_of_their_bytes() {
    let hash = abc_hash();
    assert_eq!(blob_name(&hash), format!("blob-{ABC_SHA256}.aklp"));
    assert_eq!(state_name(&hash), format!("state-{ABC_SHA256}.json"));
    let (name, pointer) = state_entry(b"abc");
    assert_eq!(name, format!("state-{ABC_SHA256}.json"));
    assert_eq!(pointer, ABC_SHA256.as_bytes().to_vec());
}

#[test]
fn a_written_pointer_reads_back_as_its_hash() {
    let hash = abc_hash();
    let bytes = pointer_bytes(&hash);
    assert_eq!(parse_pointer(&bytes), Ok(hash));
    let (_, written) = state_entry(b"state contents");
    let loaded = parse_pointer(&written).unwrap();
    assert_eq!(check_state_integrity(b"state contents", &loaded), Ok(()));
}

#[test]
fn malformed_pointers_are_invalid_files() {
    for bad in [
        String::new(),
        ABC_SHA256[..62].to_string(),
        ABC_SHA256.to_uppercase(),
        format!("{ABC_SHA256}\n"),
        format!("{}g", &ABC_SHA256[..63]),
        format!(" {ABC_SHA256}"),
    ] {
        assert_eq!(parse_pointer(bad.as_bytes()), Err(StoreError::InvalidFile), "{bad:?}");
    }
}

#[test]
fn a_state_that_does_not_match_its_pointer_fails_integrity() {
    let hash = abc_hash();
    assert_eq!(check_state_integrity(b"abc", &hash), Ok(()));
    assert_eq!(check_state_integrity(b"abd", &hash), Err(StoreError::Integrity));
    assert_eq!(StoreError::Integrity.describe(), "package_store_Integrity");
    assert_eq!(StoreError::CommitUncertain.describe(), "package_store_CommitUncertain");
}

#[test]
fn artifacts_must_match_their_receipt_exactly() {
    let receipt = ArtifactReceipt { sha256: abc_hash(), bytes: 3 };
    assert!(artifact_matches(b"abc", &receipt));
    assert_eq!(check_artifact(b"abc", &receipt), Ok(()));
    assert_eq!(check_artifact(b"abd", &receipt), Err(StoreError::Integrity));
    let wrong_size = ArtifactReceipt { sha256: abc_hash(), bytes: 4 };
    assert!(!artifact_matches(b"abc", &wrong_size));
}

#[test]
fn supplied_artifacts_are_required_bounded_and_unique() {
    let receipts = [ArtifactReceipt { sha256: abc_hash(), bytes: 3 }];
    let abc = b"abc".to_vec();
    assert_eq!(check_supplied_artifacts(&receipts, &[abc.clone()], 16, 16), Ok(vec![abc_hash()]));
    assert_eq!(check_supplied_artifacts(&receipts, &[], 16, 16), Ok(vec![]));
    let unexpected = Err(StoreError::UnexpectedArtifact);
    assert_eq!(check_supplied_artifacts(&receipts, &[abc.clone(), abc.clone()], 16, 16), unexpected);
    let two = [receipts[0], receipts[0]];
    assert_eq!(check_supplied_artifacts(&two, &[abc.clone(), abc.clone()], 16, 16), unexpected);
    assert_eq!(check_supplied_artifacts(&receipts, &[b"abd".to_vec()], 16, 16), unexpected);
    assert_eq!(check_supplied_artifacts(&receipts, &[abc.clone()], 2, 16), unexpected);
    assert_eq!(check_supplied_artifacts(&receipts, &[abc], 16, 2), unexpected);
}
