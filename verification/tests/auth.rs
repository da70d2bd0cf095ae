use ethers_core::types::Signature as EthSignature;
use ethers_core::utils::hash_message;
use ethers_signers::{LocalWallet, Signer};
use open_fastrlp::Encodable;
use shuffle_service::primitives::{Address, U256};
use shuffle_service::service::auth::{
    bearer_token, join_message_bytes, judge_join, verify_join_signature,
    verify_join_signature_at, EcdsaSignature, JoinSignatureError, SignatureFault, TokenError,
    TokensGenerator, TOKEN_LIFETIME, VALIDATION_LEEWAY,
};
use std::time::{SystemTime, UNIX_EPOCH};

fn wallet(n: u8) -> LocalWallet {
    LocalWallet::from_bytes(&[n; 32]).unwrap()
}

fn owner(w: &LocalWallet) -> Address {
    Address { bytes: w.address().0 }
}

fn rlp(signature: &EthSignature) -> Vec<u8> {
    let mut out: Vec<u8> = Vec::new();
    signature.encode(&mut out);
    out
}

fn signed_join(w: &LocalWallet, utxo_id: &U256, timestamp: u64) -> Vec<u8> {
    let message = join_message_bytes(utxo_id, timestamp);
    rlp(&w.sign_hash(hash_message(&message)).unwrap())
}

fn now_secs() -> u64 {
    SystemTime::now().duration_since(UNIX_EPOCH).unwrap().as_secs()
}

#[test]
fn join_message_is_id_then_timestamp() {
    let message = join_message_bytes(&U256::from_u64(0x0102), 0x0a0b_0c0d_0e0f_1011);
    let mut expected = vec![0u8; 30];
    expected.extend_from_slice(&[1, 2]);
    expected.extend_from_slice(&[0x0a, 0x0b, 0x0c, 0x0d, 0x0e, 0x0f, 0x10, 0x11]);
    assert_eq!(message.len(), 40);
    assert_eq!(message, expected);
}

#[test]
fn owner_signature_is_accepted() {
    let w = wallet(1);
    let utxo_id = U256::from_u64(77);
    let signature = signed_join(&w, &utxo_id, 1_000);
    assert_eq!(verify_join_signature_at(&utxo_id, 1_000, &signature, owner(&w), Some(1_000)), Ok(()));
    assert_eq!(verify_join_signature_at(&utxo_id, 1_000, &signature, owner(&w), Some(5_000)), Ok(()));
}

#[test]
fn signature_of_another_key_is_rejected() {
    let w = wallet(1);
    let other = wallet(2);
    let utxo_id = U256::from_u64(77);
    let signature = signed_join(&other, &utxo_id, 1_000);
    assert_eq!(
        verify_join_signature_at(&utxo_id, 1_000, &signature, owner(&w), Some(2_000)),
        Err(JoinSignatureError::InvalidSignature(SignatureFault::WrongSigner))
    );
}

#[test]
fn signature_over_another_message_is_rejected() {
    let w = wallet(1);
    let signature = signed_join(&w, &U256::from_u64(77), 1_000);
    assert_eq!(
        verify_join_signature_at(&U256::from_u64(78), 1_000, &signature, owner(&w), Some(2_000)),
        Err(JoinSignatureError::InvalidSignature(SignatureFault::WrongSigner))
    );
    assert_eq!(
        verify_join_signature_at(&U256::from_u64(77), 999, &signature, owner(&w), Some(2_000)),
        Err(JoinSignatureError::InvalidSignature(SignatureFault::WrongSigner))
    );
}

#[test]
fn timestamp_ahead_of_the_clock_is_rejected() {
    let w = wallet(1);
    let utxo_id = U256::from_u64(77);
    let signature = signed_join(&w, &utxo_id, 1_001);
    assert_eq!(
        verify_join_signature_at(&utxo_id, 1_001, &signature, owner(&w), Some(1_000)),
        Err(JoinSignatureError::InvalidTimestamp(1_001))
    );
    assert_eq!(
        verify_join_signature_at(&utxo_id, 1_001, &signature, owner(&w), None),
        Err(JoinSignatureError::InvalidTimestamp(1_001))
    );
}

#[test]
fn undecodable_signature_is_rejected_before_the_timestamp() {
    let w = wallet(1);
    let utxo_id = U256::from_u64(77);
    assert_eq!(
        verify_join_signature_at(&utxo_id, 9_999, &vec![], owner(&w), Some(1_000)),
        Err(JoinSignatureError::InvalidSignature(SignatureFault::Undecodable))
    );
    assert_eq!(
        verify_join_signature_at(&utxo_id, 1, &vec![0xc0, 0x01], owner(&w), Some(1_000)),
        Err(JoinSignatureError::InvalidSignature(SignatureFault::Undecodable))
    );
}

#[test]
fn unrecoverable_signature_is_rejected() {
    let w = wallet(1);
    let zero = EthSignature { r: 0u64.into(), s: 0u64.into(), v: 27 };
    assert_eq!(
        verify_join_signature_at(&U256::from_u64(77), 1, &rlp(&zero), owner(&w), Some(1_000)),
        Err(JoinSignatureError::InvalidSignature(SignatureFault::Unrecoverable))
    );
}

#[test]
fn verify_reads_the_clock() {
    let w = wallet(3);
    let utxo_id = U256::from_u64(5);
    let past = now_secs() - 10;
    assert_eq!(verify_join_signature(&utxo_id, past, signed_join(&w, &utxo_id, past), owner(&w)), Ok(()));
    let ahead = now_secs() + 3_600;
    assert_eq!(
        verify_join_signature(&utxo_id, ahead, signed_join(&w, &utxo_id, ahead), owner(&w)),
        Err(JoinSignatureError::InvalidTimestamp(ahead))
    );
}

#[test]
fn bearer_token_strips_the_prefix() {
    assert_eq!(bearer_token("Bearer abc.def"), Some("abc.def"));
    assert_eq!(bearer_token("Bearer "), Some(""));
    assert_eq!(bearer_token("bearer abc"), None);
    assert_eq!(bearer_token("Bearer"), None);
    assert_eq!(bearer_token(""), None);
    assert_eq!(bearer_token("Token abc.def"), None);
    assert_eq!(bearer_token("Bearer \u{e9}t\u{e9}"), Some("\u{e9}t\u{e9}"));
}

#[test]
fn token_lifetime_is_a_day() {
    assert_eq!(TOKEN_LIFETIME, 86_400);
}

#[test]
fn shuffle_token_round_trip() {
    let generator = TokensGenerator::new("secret one".to_string());
    let token = Address { bytes: [0x11; 20] };
    let amount = U256::from_u64(1_000_000);
    let utxo_id = U256::from_big_endian(&[0xfe; 32]);
    let now = now_secs();
    let text = generator.generate_shuffle_token_at(token, amount, utxo_id, Some(now)).unwrap();
    assert_eq!(text.split('.').count(), 3);
    let claim = generator.decode_shuffle_token(Some(&format!("Bearer {}", text))).unwrap();
    assert_eq!(claim.token, token);
    assert_eq!(claim.amount, amount);
    assert_eq!(claim.utxo_id, utxo_id);
    assert_eq!(claim.exp, now + 86_400);
}

#[test]
fn room_token_round_trip() {
    let generator = TokensGenerator::new("secret one".to_string());
    let room_id = 0xffee_ddcc_bbaa_9988_7766_5544_3322_1100u128;
    let utxo_id = U256::from_u64(42);
    let text = generator.generate_room_token(room_id, utxo_id).unwrap();
    let claim = generator.decode_room_token(Some(&format!("Bearer {}", text))).unwrap();
    assert_eq!(claim.utxo_id, utxo_id);
    assert_eq!(claim.room_id, room_id);
    let now = now_secs();
    assert!(claim.exp >= now + 86_400 - 5 && claim.exp <= now + 86_400 + 5);
}

#[test]
fn token_is_a_function_of_key_and_claim() {
    let a = TokensGenerator::new("secret one".to_string());
    let b = a.clone();
    let c = TokensGenerator::new("secret two".to_string());
    let token = Address { bytes: [0x11; 20] };
    let make = |g: &TokensGenerator, utxo: u64, now: u64| {
        g.generate_shuffle_token_at(token, U256::from_u64(9), U256::from_u64(utxo), Some(now)).unwrap()
    };
    assert_eq!(make(&a, 1, 500), make(&b, 1, 500));
    assert_ne!(make(&a, 1, 500), make(&c, 1, 500));
    assert_ne!(make(&a, 1, 500), make(&a, 2, 500));
    assert_ne!(make(&a, 1, 500), make(&a, 1, 501));
}

#[test]
fn token_of_another_secret_is_rejected() {
    let ours = TokensGenerator::new("secret one".to_string());
    let theirs = TokensGenerator::new("secret two".to_string());
    let text = theirs
        .generate_shuffle_token(Address { bytes: [1; 20] }, U256::from_u64(1), U256::from_u64(2))
        .unwrap();
    assert_eq!(
        ours.decode_shuffle_token(Some(&format!("Bearer {}", text))),
        Err(TokenError::InvalidToken)
    );
}

#[test]
fn expired_token_is_rejected() {
    let generator = TokensGenerator::new("secret one".to_string());
    let long_ago = now_secs() - 2 * 86_400;
    let text = generator
        .generate_room_token_at(7, U256::from_u64(2), Some(long_ago))
        .unwrap();
    assert_eq!(
        generator.decode_room_token(Some(&format!("Bearer {}", text))),
        Err(TokenError::InvalidToken)
    );
}

#[test]
fn token_of_the_other_kind_is_rejected() {
    let generator = TokensGenerator::new("secret one".to_string());
    let shuffle = generator
        .generate_shuffle_token(Address { bytes: [1; 20] }, U256::from_u64(1), U256::from_u64(2))
        .unwrap();
    let room = generator.generate_room_token(7, U256::from_u64(2)).unwrap();
    assert_eq!(
        generator.decode_room_token(Some(&format!("Bearer {}", shuffle))),
        Err(TokenError::InvalidToken)
    );
    assert_eq!(
        generator.decode_shuffle_token(Some(&format!("Bearer {}", room))),
        Err(TokenError::InvalidToken)
    );
}

#[test]
fn header_faults_are_told_apart() {
    let generator = TokensGenerator::new("secret one".to_string());
    assert_eq!(generator.decode_shuffle_token(None), Err(TokenError::MissingHeader));
    assert_eq!(generator.decode_room_token(None), Err(TokenError::MissingHeader));
    assert_eq!(generator.decode_shuffle_token(Some("Basic abc")), Err(TokenError::InvalidHeader));
    assert_eq!(generator.decode_room_token(Some("abc")), Err(TokenError::InvalidHeader));
    assert_eq!(generator.decode_room_token(Some("Bearer not-a-token")), Err(TokenError::InvalidToken));
}

#[test]
fn no_token_without_a_clock_or_past_the_end_of_time() {
    let generator = TokensGenerator::new("secret one".to_string());
    let token = Address { bytes: [1; 20] };
    assert_eq!(
        generator.generate_shuffle_token_at(token, U256::from_u64(1), U256::from_u64(2), None),
        Err(TokenError::Clock)
    );
    assert_eq!(
        generator.generate_room_token_at(1, U256::from_u64(2), Some(u64::MAX - 86_399)),
        Err(TokenError::Clock)
    );
    assert!(generator.generate_room_token_at(1, U256::from_u64(2), Some(u64::MAX - 86_400)).is_ok());
}

#[test]
fn judgement_on_given_values() {
    let decoded = Some(EcdsaSignature { r: U256::from_u64(1), s: U256::from_u64(2), v: 27 });
    let owner = Address { bytes: [1; 20] };
    let other = Address { bytes: [2; 20] };
    let undecodable = Err(JoinSignatureError::InvalidSignature(SignatureFault::Undecodable));
    assert_eq!(judge_join(decoded, 10, Some(10), Some(owner), owner), Ok(()));
    assert_eq!(judge_join(decoded, 0, Some(u64::MAX), Some(owner), owner), Ok(()));
    assert_eq!(judge_join(None, 10, Some(10), Some(owner), owner), undecodable);
    assert_eq!(judge_join(None, 11, Some(10), None, owner), undecodable);
    assert_eq!(
        judge_join(decoded, 11, Some(10), Some(owner), owner),
        Err(JoinSignatureError::InvalidTimestamp(11))
    );
    assert_eq!(
        judge_join(decoded, 0, None, Some(owner), owner),
        Err(JoinSignatureError::InvalidTimestamp(0))
    );
    assert_eq!(
        judge_join(decoded, 11, Some(10), None, owner),
        Err(JoinSignatureError::InvalidTimestamp(11))
    );
    assert_eq!(
        judge_join(decoded, 10, Some(10), None, owner),
        Err(JoinSignatureError::InvalidSignature(SignatureFault::Unrecoverable))
    );
    assert_eq!(
        judge_join(decoded, 10, Some(10), Some(other), owner),
        Err(JoinSignatureError::InvalidSignature(SignatureFault::WrongSigner))
    );
}

#[test]
fn leeway_is_a_minute() {
    assert_eq!(VALIDATION_LEEWAY, 60);
}
