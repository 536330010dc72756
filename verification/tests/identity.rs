use p2proxy::errors::AuthError;
use p2proxy::identity::{api_key_digest, encode_b58_check, federated_request, public_b58, NodeIdentity, NodeKeypair};

#[test]
fn digest_is_sha256_of_the_key() {
    let d = api_key_digest("abc");
    assert_eq!(hex::encode(d), "ba7816bf8f01cfea414140de5dae2223b00361a396177a9cb410ff61f20015ad");
}

#[test]
fn base58_check_round_trips() {
    let data = [1u8, 2, 3, 4, 5, 6, 7, 8, 9];
    let s = encode_b58_check(&data);
    assert_ne!(s.as_bytes(), &data[..]);
    assert_eq!(base58_monero::decode_check(&s).expect("decodes"), data.to_vec());
}

#[test]
fn request_carries_a_verifiable_signature_and_the_public_key() {
    let kp = libp2p::identity::Keypair::generate_ed25519();
    let node = NodeKeypair::from_keypair(&kp);
    let req = federated_request("my-api-key", &node).expect("ed25519 keys sign");
    assert_eq!(req.api_token, "my-api-key");
    let sig = base58_monero::decode_check(&req.signature).expect("signature decodes");
    assert!(kp.public().verify(&api_key_digest("my-api-key"), &sig));
    let pk = kp.public().try_into_ed25519().expect("ed25519").to_bytes();
    assert_eq!(base58_monero::decode_check(&req.public_key).expect("key decodes"), pk.to_vec());
    assert_eq!(public_b58(&node).expect("ed25519"), req.public_key);
}

#[test]
fn identity_needs_a_32_byte_secret() {
    assert!(NodeIdentity::from_secret(&[1u8; 31]).is_none());
    assert!(NodeIdentity::from_secret(&[1u8; 32]).is_some());
}

#[test]
fn identity_signs_the_digest_deterministically() {
    let secret = [7u8; 32];
    let id = NodeIdentity::from_secret(&secret).expect("32 bytes");
    let q1 = id.federated_request("k");
    let q2 = id.federated_request("k");
    assert_eq!(q1.signature, q2.signature);
    assert_eq!(q1.api_token, "k");
    let sk = libp2p::identity::ed25519::SecretKey::try_from_bytes(secret.to_vec()).expect("sk");
    let kp = libp2p::identity::ed25519::Keypair::from(sk);
    let sig = base58_monero::decode_check(&q1.signature).expect("decodes");
    assert!(kp.public().verify(&api_key_digest("k"), &sig));
    assert!(!kp.public().verify(b"k", &sig), "the raw key is not what is signed");
    assert_eq!(base58_monero::decode_check(&q1.public_key).expect("decodes"), kp.public().to_bytes().to_vec());
    assert_eq!(id.public_b58(), q1.public_key);
}

#[test]
fn keypair_identity_matches_its_secret() {
    let kp = libp2p::identity::Keypair::generate_ed25519();
    let node = NodeKeypair::from_keypair(&kp);
    let id = match &node {
        NodeKeypair::Ed25519(id) => id,
        NodeKeypair::Other(e) => panic!("ed25519 keypair read as another kind: {e}"),
    };
    assert_eq!(id.public_b58(), public_b58(&node).expect("ed25519"));
    assert_eq!(id.federated_request("key").signature, federated_request("key", &node).expect("ed25519").signature);
}

#[test]
fn other_kinds_of_keypair_are_signing_errors() {
    let node = NodeKeypair::Other("not ed25519".to_string());
    match federated_request("key", &node) {
        Err(AuthError::Signing(m)) => assert_eq!(m, "not ed25519"),
        _ => panic!("expected a signing error"),
    }
    match public_b58(&node) {
        Err(AuthError::Signing(m)) => assert_eq!(m, "not ed25519"),
        _ => panic!("expected a signing error"),
    }
}

