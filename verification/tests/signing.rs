use base64::Engine;
use ed25519_dalek::Verifier;
use devapack::signer::{
    b64_encode, generate_keypair_bytes, hex_encode, key_path, keypair_bytes_from_seed,
    random_bytes, sha256, sign_bytes, sign_two_shas,
};

#[test]
fn sign_two_is_all_absent_without_a_key() {
    let raw = sha256(&b"raw".to_vec());
    let gz = sha256(&b"gz".to_vec());
    let (a, b, c) = sign_two_shas(&None, &raw, &gz).unwrap();
    assert!(a.is_none() && b.is_none() && c.is_none());
}

#[test]
fn sign_two_signs_both_digests_with_a_key() {
    let key = generate_keypair_bytes().unwrap();
    assert_eq!(key.len(), 64);
    let raw = sha256(&b"raw".to_vec());
    let gz = sha256(&b"gz".to_vec());
    let (a, b, c) = sign_two_shas(&Some(key), &raw, &gz).unwrap();
    let sig_raw = a.unwrap();
    let sig_gz = b.unwrap();
    let pk = c.unwrap();
    assert_eq!(sig_raw.len(), 88);
    assert_eq!(sig_gz.len(), 88);
    assert_eq!(pk.len(), 44);
    assert_ne!(sig_raw, sig_gz);
}

#[test]
fn seed_only_keys_are_accepted_and_verify() {
    let seed = vec![7u8; 32];
    let msg = b"the archive digest".to_vec();
    let (sig_b64, pk_b64) = sign_bytes(&seed, &msg).unwrap();
    // the signature must check out under the real verifier
    let sig_bytes = base64::engine::general_purpose::STANDARD.decode(&sig_b64).unwrap();
    let pk_bytes = base64::engine::general_purpose::STANDARD.decode(&pk_b64).unwrap();
    let pk = ed25519_dalek::PublicKey::from_bytes(&pk_bytes).unwrap();
    let sig = ed25519_dalek::Signature::from_bytes(&sig_bytes).unwrap();
    assert!(pk.verify(&msg, &sig).is_ok());
}

#[test]
fn both_key_encodings_sign_identically() {
    let seed = vec![9u8; 32];
    let pair = keypair_bytes_from_seed(&seed).unwrap();
    assert_eq!(&pair[..32], &seed[..]);
    let msg = b"same message".to_vec();
    let from_seed = sign_bytes(&seed, &msg).unwrap();
    let from_pair = sign_bytes(&pair, &msg).unwrap();
    assert_eq!(from_seed.0, from_pair.0);
    assert_eq!(from_seed.1, from_pair.1);
}

#[test]
fn wrong_key_length_is_refused() {
    let err = sign_bytes(&vec![1u8; 31], &b"m".to_vec()).unwrap_err();
    assert_eq!(err, "Unsupported key length");
}

#[test]
fn sha256_matches_the_known_empty_digest() {
    let d = sha256(&Vec::new());
    assert_eq!(
        hex_encode(&d),
        "e3b0c44298fc1c149afbf4c8996fb92427ae41e4649b934ca495991b7852b855"
    );
}

#[test]
fn hex_is_lowercase_high_nibble_first() {
    assert_eq!(hex_encode(&vec![0xbe, 0xef, 0x00]), "beef00");
}

#[test]
fn base64_is_standard_padded() {
    assert_eq!(b64_encode(&b"hi".to_vec()), "aGk=");
    assert_eq!(b64_encode(&Vec::new()), "");
}

#[test]
fn random_bytes_have_the_asked_length() {
    let b = random_bytes(32).unwrap();
    assert_eq!(b.len(), 32);
}

#[test]
fn key_file_sits_under_the_home_directory() {
    assert_eq!(key_path("/home/u"), "/home/u/.devalang/keys/ed25519.key");
}
