use bonded_bft::errors::{BftError, BftResult, BondedResult};
use bonded_bft::records::{CanisterState, EvidenceMetadata, UserSettings};
use bonded_bft::validate::{
    is_valid_email, reconstruct_key_from_shares, validate_encrypted_data,
    validate_evidence_metadata,
};

#[test]
fn plausible_addresses_pass() {
    assert!(is_valid_email("a@b.co"));
    assert!(is_valid_email("someone@example.com"));
    assert!(is_valid_email("first.last@sub.domain.org"));
}

#[test]
fn implausible_addresses_fail() {
    assert!(!is_valid_email("ab.co"));
    assert!(!is_valid_email("@b.com"));
    assert!(!is_valid_email("abc@"));
    assert!(!is_valid_email("a@bcom"));
    assert!(!is_valid_email("a@b@c.com"));
    assert!(!is_valid_email("a@b.c"));
    let long = format!("a@{}.com", "x".repeat(300));
    assert!(!is_valid_email(&long));
}

fn metadata(timestamp: u64, content_type: &str) -> EvidenceMetadata {
    EvidenceMetadata {
        timestamp,
        content_type: content_type.to_string(),
        location: None,
        description: None,
        tags: vec![],
    }
}

#[test]
fn metadata_validation_checks_each_field() {
    let now = 1_000_000_000_000u64;
    assert!(validate_evidence_metadata(&metadata(now, "image/jpeg"), now).is_ok());
    assert_eq!(
        validate_evidence_metadata(&metadata(now, ""), now),
        Err("Content type is required".to_string())
    );
    assert_eq!(
        validate_evidence_metadata(&metadata(0, "image/jpeg"), now),
        Err("Timestamp is required".to_string())
    );
    assert_eq!(
        validate_evidence_metadata(&metadata(now + 60_000_000_001, "image/jpeg"), now),
        Err("Timestamp cannot be in the future".to_string())
    );
    // Exactly at the tolerance boundary is accepted.
    assert!(validate_evidence_metadata(&metadata(now + 60_000_000_000, "image/jpeg"), now).is_ok());
}

#[test]
fn encrypted_payloads_need_room_for_nonce_and_tag() {
    assert_eq!(
        validate_encrypted_data(&[]),
        Err("Encrypted data cannot be empty".to_string())
    );
    assert_eq!(
        validate_encrypted_data(&[0u8; 31]),
        Err("Encrypted data appears to be too small".to_string())
    );
    assert!(validate_encrypted_data(&[0u8; 32]).is_ok());
}

#[test]
fn key_reconstruction_is_the_xor_of_the_shares() {
    let share1: Vec<u8> = (0u8..32).collect();
    let share2: Vec<u8> = (100u8..132).collect();
    let key = reconstruct_key_from_shares(&share1, &share2).unwrap();
    assert_eq!(key.len(), 32);
    for i in 0..32 {
        assert_eq!(key[i], share1[i] ^ share2[i]);
    }
    assert_eq!(
        reconstruct_key_from_shares(&share1[..31], &share2),
        Err("Both shares must be exactly 32 bytes".to_string())
    );
}

#[test]
fn result_constructors_tag_their_values() {
    match BftResult::<u64>::ok(5) {
        BftResult::Success(v) => assert_eq!(v, 5),
        BftResult::Failure(_) => panic!("expected success"),
    }
    match BftResult::<u64>::err("broken") {
        BftResult::Failure(m) => assert_eq!(m, "broken".to_string()),
        BftResult::Success(_) => panic!("expected failure"),
    }
    match BondedResult::<u64>::ok(7) {
        BondedResult::Success(v) => assert_eq!(v, 7),
        BondedResult::Failure(_) => panic!("expected success"),
    }
    match BondedResult::<u64>::err("nope") {
        BondedResult::Failure(m) => assert_eq!(m, "nope".to_string()),
        BondedResult::Success(_) => panic!("expected failure"),
    }
}

#[test]
fn error_kinds_have_messages() {
    assert_eq!(BftError::ValidationError.message(), "validation error".to_string());
    assert_eq!(BftError::ByzantineRejection.message(), "byzantine rejection".to_string());
    assert_eq!(BftError::NotFound.message(), "not found".to_string());
    assert_eq!(BftError::IntegrityFailure.message(), "integrity failure".to_string());
    assert_eq!(BftError::ConsensusFailure.message(), "consensus failure".to_string());
    assert_eq!(BftError::RecoveryExhausted.message(), "recovery exhausted".to_string());
}

#[test]
fn default_records_start_from_zero() {
    let cs = CanisterState::default();
    assert_eq!(cs.next_evidence_id, 0);
    assert_eq!(cs.total_evidence_count, 0);
    let us = UserSettings::default();
    assert!(!us.ai_filters_enabled);
    assert!(us.upload_schedule.is_empty());
    assert_eq!(us.updated_at, 0);
}
