//! The federated authentication request: the node proves it holds the API
//! key by signing the key's SHA-256 digest with its libp2p identity; the
//! signature and the node's Ed25519 public key travel base58-check encoded
//! (Monero alphabet, Keccak checksum).
use sha2::Digest;
use vstd::prelude::*;
use vstd::string::StringSliceAdditionalSpecFns;

use crate::errors::AuthError;

verus! {

#[verifier::external_type_specification]
#[verifier::external_body]
pub struct ExKeypair(libp2p::identity::Keypair);

/// The SHA-256 digest of `data`.
pub uninterp spec fn sha256_of(data: Seq<u8>) -> Seq<u8>;

/// The base58-check text of `data`.
pub uninterp spec fn base58_check_of(data: Seq<u8>) -> Seq<char>;

/// `sha2::Sha256::digest`: the 32-byte SHA-256 digest of `data`.
#[verifier::external_body]
fn sha256_digest(data: &[u8]) -> (d: Vec<u8>)
    ensures
        d@ == sha256_of(data@),
        d@.len() == 32,
{
    sha2::Sha256::digest(data).to_vec()
}

/// `base58_monero::encode_check`: `data` followed by the first four bytes
/// of its Keccak-256 hash, in Monero's block-wise base58. Its only error is
/// a block size outside 1..=8, which its own eight-byte chunking never
/// produces, so it always succeeds.
#[verifier::external_body]
fn base58_encode_check(data: &[u8]) -> (r: Result<String, String>)
    ensures
        r is Ok,
        r is Ok ==> r->Ok_0@ == base58_check_of(data@),
{
    base58_monero::encode_check(data).map_err(|e| e.to_string())
}

/// The Ed25519 signature of `msg` under the 32-byte secret key `secret`.
pub uninterp spec fn ed25519_signature_of(secret: Seq<u8>, msg: Seq<u8>) -> Seq<u8>;

/// The 32-byte Ed25519 public key of the secret key `secret`.
pub uninterp spec fn ed25519_public_of(secret: Seq<u8>) -> Seq<u8>;

/// `libp2p::identity::ed25519::SecretKey::try_from_bytes`, then
/// `Keypair::from` and `Keypair::sign`: the 64-byte Ed25519 signature of
/// `msg` under `secret` (deterministic in both). The conversion fails only
/// on a length other than 32, which `requires` rules out.
#[verifier::external_body]
fn ed25519_sign(secret: &[u8], msg: &[u8]) -> (sig: Vec<u8>)
    requires
        secret@.len() == 32,
    ensures
        sig@ == ed25519_signature_of(secret@, msg@),
{
    let sk = libp2p::identity::ed25519::SecretKey::try_from_bytes(secret.to_vec()).expect("a 32-byte secret key");
    libp2p::identity::ed25519::Keypair::from(sk).sign(msg)
}

/// `ed25519::SecretKey::try_from_bytes`, `Keypair::from`, `public` and
/// `PublicKey::to_bytes`: the 32-byte public key of `secret`.
#[verifier::external_body]
fn ed25519_public(secret: &[u8]) -> (pk: Vec<u8>)
    requires
        secret@.len() == 32,
    ensures
        pk@ == ed25519_public_of(secret@),
        pk@.len() == 32,
{
    let sk = libp2p::identity::ed25519::SecretKey::try_from_bytes(secret.to_vec()).expect("a 32-byte secret key");
    libp2p::identity::ed25519::Keypair::from(sk).public().to_bytes().to_vec()
}

/// `Keypair::try_into_ed25519`, `ed25519::Keypair::secret` and its bytes:
/// the 32-byte secret key of an Ed25519 keypair, or why the keypair is of
/// another kind. Which kind the keypair is, is not stated.
#[verifier::external_body]
fn keypair_ed25519_secret(keypair: &libp2p::identity::Keypair) -> (r: Result<Vec<u8>, String>)
    ensures
        r is Ok ==> r->Ok_0@.len() == 32,
{
    keypair.clone().try_into_ed25519().map(|k| k.secret().as_ref().to_vec()).map_err(|e| e.to_string())
}

/// What the auth service is sent.
#[derive(Debug, Clone)]
pub struct FederatedAuthRequest {
    pub api_token: String,
    /// Base58-check signature over the API key's SHA-256 digest.
    pub signature: String,
    /// Base58-check Ed25519 public key of the node.
    pub public_key: String,
}

/// The digest the node signs: SHA-256 of the API key's UTF-8 bytes.
pub fn api_key_digest(api_key: &str) -> (d: Vec<u8>)
    ensures
        d@ == sha256_of(api_key.spec_bytes()),
        d@.len() == 32,
{
    sha256_digest(api_key.as_bytes())
}

/// Base58-check text of `data`.
pub fn encode_b58_check(data: &[u8]) -> (s: String)
    ensures
        s@ == base58_check_of(data@),
{
    match base58_encode_check(data) {
        Ok(s) => s,
        Err(_) => String::new(),
    }
}

/// What the node's federated request for `api_key` holds, signed with the
/// Ed25519 secret key `secret`.
pub open spec fn request_fields(api_key: &str, secret: Seq<u8>) -> (Seq<char>, Seq<char>, Seq<char>) {
    (
        api_key@,
        base58_check_of(ed25519_signature_of(secret, sha256_of(api_key.spec_bytes()))),
        base58_check_of(ed25519_public_of(secret)),
    )
}

/// The node's Ed25519 identity, by its 32-byte secret key.
pub struct NodeIdentity {
    secret: Vec<u8>,
}

impl View for NodeIdentity {
    type V = Seq<u8>;

    closed spec fn view(&self) -> Seq<u8> {
        self.secret@
    }
}

impl NodeIdentity {
    #[verifier::type_invariant]
    closed spec fn inv(self) -> bool {
        self.secret@.len() == 32
    }

    /// The identity of a 32-byte secret key; `None` for any other length.
    pub fn from_secret(secret: &[u8]) -> (r: Option<NodeIdentity>)
        ensures
            (r is Some) == (secret@.len() == 32),
            r matches Some(id) ==> id@ == secret@,
    {
        if secret.len() == 32 {
            Some(NodeIdentity { secret: vstd::slice::slice_to_vec(secret) })
        } else {
            None
        }
    }

    /// The base58-check text of the node's public key.
    pub fn public_b58(&self) -> (s: String)
        ensures
            s@ == base58_check_of(ed25519_public_of(self@)),
    {
        proof { use_type_invariant(self); }
        let pk = ed25519_public(self.secret.as_slice());
        encode_b58_check(pk.as_slice())
    }

    /// The request for `api_key`: the key itself, the signature of its
    /// SHA-256 digest, and the node's public key, both base58-check.
    pub fn federated_request(&self, api_key: &str) -> (q: FederatedAuthRequest)
        ensures
            (q.api_token@, q.signature@, q.public_key@) == request_fields(api_key, self@),
    {
        proof { use_type_invariant(self); }
        let digest = api_key_digest(api_key);
        let sig = ed25519_sign(self.secret.as_slice(), digest.as_slice());
        let signature = encode_b58_check(sig.as_slice());
        let public_key = self.public_b58();
        FederatedAuthRequest { api_token: api_key.to_string(), signature, public_key }
    }
}

/// The node's keypair as far as the auth request reads it: the secret key
/// of an Ed25519 keypair, or, for a keypair of another kind, why it cannot
/// sign the request.
pub enum NodeKeypair {
    Ed25519(NodeIdentity),
    Other(String),
}

impl NodeKeypair {
    /// Read a libp2p keypair: its Ed25519 secret key where it is of that
    /// kind, else the text of the error that says it is not.
    pub fn from_keypair(keypair: &libp2p::identity::Keypair) -> (r: NodeKeypair)
        ensures
            r matches NodeKeypair::Ed25519(id) ==> id@.len() == 32,
    {
        match keypair_ed25519_secret(keypair) {
            Ok(sk) => NodeKeypair::Ed25519(NodeIdentity { secret: sk }),
            Err(e) => NodeKeypair::Other(e),
        }
    }
}

/// Build the request for `api_key` with the node's `keypair`: an Ed25519
/// keypair signs the key's digest with its secret key; any other kind of
/// keypair is a signing error.
pub fn federated_request(api_key: &str, keypair: &NodeKeypair) -> (r: Result<
    FederatedAuthRequest,
    AuthError,
>)
    ensures
        keypair matches NodeKeypair::Ed25519(id) ==> r matches Ok(q) && request_fields(api_key, id@) == (
            q.api_token@,
            q.signature@,
            q.public_key@,
        ),
        keypair matches NodeKeypair::Other(e) ==> r matches Err(AuthError::Signing(m)) && m@ == e@,
{
    match keypair {
        NodeKeypair::Ed25519(id) => Ok(id.federated_request(api_key)),
        NodeKeypair::Other(e) => Err(AuthError::Signing(e.clone())),
    }
}

/// The base58-check Ed25519 public key of the node, or a signing error for
/// a keypair of another kind.
pub fn public_b58(keypair: &NodeKeypair) -> (r: Result<String, AuthError>)
    ensures
        keypair matches NodeKeypair::Ed25519(id) ==> r matches Ok(s) && s@ == base58_check_of(ed25519_public_of(id@)),
        keypair matches NodeKeypair::Other(e) ==> r matches Err(AuthError::Signing(m)) && m@ == e@,
{
    match keypair {
        NodeKeypair::Ed25519(id) => Ok(id.public_b58()),
        NodeKeypair::Other(e) => Err(AuthError::Signing(e.clone())),
    }
}

} // verus!
