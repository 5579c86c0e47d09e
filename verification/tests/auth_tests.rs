use xnode_demo::auth::{build_credential, hash_message, login_message, user_id, SigningError};
use xnode_demo::gateway::generate_owner_secret;
use xnode_demo::wallet::load_or_generate_key;

fn test_key() -> Vec<u8> {
    hex::decode("4d5db4107d237df6a3d58ee5f70ae63d73d7658d4026f2eefd2f204c81682cb7").unwrap()
}

fn keccak(data: &[u8]) -> Vec<u8> {
    let mut hasher = tiny_keccak::Keccak::v256();
    tiny_keccak::Hasher::update(&mut hasher, data);
    let mut out = [0u8; 32];
    tiny_keccak::Hasher::finalize(hasher, &mut out);
    out.to_vec()
}

fn split_signature(sig: &[u8]) -> ethsign::Signature {
    let mut r = [0u8; 32];
    r.copy_from_slice(&sig[0..32]);
    let mut s = [0u8; 32];
    s.copy_from_slice(&sig[32..64]);
    ethsign::Signature { v: sig[64], r, s }
}

#[test]
fn user_identity_is_the_eth_address() {
    let user = user_id(&test_key()).unwrap();
    assert_eq!(user, "eth:00a329c0648769a73afac7f9381e08fb43dbea72");
}

#[test]
fn owner_secret_is_lowercase_hex() {
    let secret = generate_owner_secret();
    assert_eq!(secret.len(), 64);
    assert!(secret.chars().all(|c| c.is_ascii_hexdigit() && !c.is_ascii_uppercase()));
}

#[test]
fn invalid_key_is_reported_not_signed() {
    // The zero key, a key of the wrong length, and a key at or above the
    // curve order are all rejected, always with the key fault.
    assert_eq!(user_id(&vec![0u8; 32]).unwrap_err(), SigningError::InvalidKey);
    assert_eq!(user_id(&vec![1, 2, 3]).unwrap_err(), SigningError::InvalidKey);
    assert_eq!(user_id(&vec![0xff; 32]).unwrap_err(), SigningError::InvalidKey);
    assert_eq!(
        build_credential(&vec![0u8; 32], &"node-a".to_string(), 0).unwrap_err(),
        SigningError::InvalidKey
    );
}

#[test]
fn accepted_key_always_yields_a_credential() {
    // Success is owed exactly on a key the primitive accepts, whatever the
    // domain and time.
    for (domain, t) in [("node-a", 0u64), ("", u64::MAX), ("node-b.example", 12345)] {
        assert!(build_credential(&test_key(), &domain.to_string(), t).is_ok());
        assert!(user_id(&test_key()).is_ok());
    }
}

#[test]
fn login_message_binds_domain_and_time() {
    let m = login_message(&"node-a.example".to_string(), 1700000000);
    assert_eq!(m, "Xnode Auth authenticate node-a.example at 1700000000");
}

#[test]
fn message_hashing_is_prefixed_not_raw() {
    let m = "hello".to_string();
    let hashed = hash_message(&m);
    assert_eq!(hashed.len(), 32);
    // The digest is exactly the keccak-256 of the prefixed payload; the
    // prefix and length are part of what is signed, so the digest of the
    // bare message must differ.
    let payload = format!("\x19Ethereum Signed Message:\n{}{}", m.len(), m).into_bytes();
    assert_eq!(hashed, keccak(&payload));
    assert_ne!(hashed, keccak(m.as_bytes()));
}

#[test]
fn empty_message_hashes_like_its_prefix_alone() {
    let hashed = hash_message(&String::new());
    assert_eq!(hashed, keccak(b"\x19Ethereum Signed Message:\n0"));
}

#[test]
fn credential_carries_user_signature_and_timestamp() {
    let key = test_key();
    let c = build_credential(&key, &"node-a.example".to_string(), 1700000000).unwrap();
    assert_eq!(c.user, "eth:00a329c0648769a73afac7f9381e08fb43dbea72");
    assert_eq!(c.timestamp, 1700000000);
    assert!(c.signature.starts_with("0x"));
    assert_eq!(c.signature.len(), 2 + 130);
}

#[test]
fn credential_signature_verifies_against_the_signer() {
    let key = test_key();
    let c = build_credential(&key, &"node-a".to_string(), 0).unwrap();
    let digest = hash_message(&login_message(&"node-a".to_string(), 0));
    let sig_bytes = hex::decode(&c.signature[2..]).unwrap();
    let signature = split_signature(&sig_bytes);
    let secret = ethsign::SecretKey::from_raw(&key).unwrap();
    assert_eq!(secret.public().verify(&signature, &digest).unwrap(), true);
}

#[test]
fn signing_is_deterministic() {
    let key = test_key();
    let one = build_credential(&key, &"node-a".to_string(), 42).unwrap();
    let two = build_credential(&key, &"node-a".to_string(), 42).unwrap();
    assert_eq!(one.signature, two.signature);
    // A different domain or time signs a different message.
    let other = build_credential(&key, &"node-b".to_string(), 42).unwrap();
    assert_ne!(one.signature, other.signature);
}

#[test]
fn loaded_key_of_right_length_is_kept() {
    let key = test_key();
    let (kept, generated) = load_or_generate_key(Some(key.clone()));
    assert_eq!(kept, key);
    assert!(!generated);
}

#[test]
fn absent_or_malformed_key_is_regenerated() {
    let (fresh, generated) = load_or_generate_key(None);
    assert_eq!(fresh.len(), 32);
    assert!(generated);
    let (fresh2, generated2) = load_or_generate_key(Some(vec![1, 2, 3]));
    assert_eq!(fresh2.len(), 32);
    assert!(generated2);
    assert_ne!(fresh, fresh2);
}
