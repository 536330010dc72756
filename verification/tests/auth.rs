use p2proxy::auth::{check_federated_token, default_sticky_path, panic_message, sanity_check_federated_token, PanicPayload};
use p2proxy::errors::AuthError;

fn sanity_check_with_key(token: &str, pubkey: &str) -> Result<(), String> {
    check_federated_token(token, pubkey)
}

#[test]
fn rejects_empty_token() {
    assert!(matches!(sanity_check_federated_token(""), Err(AuthError::EmptyToken)));
}

#[test]
fn rejects_wrong_version() {
    assert!(matches!(sanity_check_federated_token("v3.local.something"), Err(AuthError::MalformedToken(_))));
}

#[test]
fn grpc_auth_rejects_garbage() {
    assert!(matches!(sanity_check_federated_token("not-a-paseto"), Err(AuthError::MalformedToken(_))));
}

#[test]
fn accepts_well_formed_v4_public() {
    sanity_check_federated_token("v4.public.eyJzb21lIjoiY2xhaW1zIn0.eyJmb290ZXIiOiJoZXJlIn0")
        .expect("well-formed token passes");
}

#[test]
fn sanity_check_rejects_empty_token() {
    let err = sanity_check_with_key("", "fake-pubkey").unwrap_err();
    assert!(err.contains("empty"));
}

#[test]
fn sanity_check_rejects_wrong_paseto_version() {
    let err = sanity_check_with_key("v3.local.somecontent", "pubkey").unwrap_err();
    assert!(err.contains("v4.public"));
}

#[test]
fn sanity_check_rejects_garbage_token() {
    let err = sanity_check_with_key("not-a-paseto-at-all", "pubkey").unwrap_err();
    assert!(err.contains("v4.public"));
}

#[test]
fn sanity_check_accepts_well_formed_v4_public_with_footer() {
    sanity_check_with_key("v4.public.eyJzb21lIjoiY2xhaW1zIn0.eyJmb290ZXIiOiJoZXJlIn0", "pubkey")
        .expect("well-formed token should pass shape check");
}

#[test]
fn malformed_message_quotes_at_most_sixteen_characters() {
    match sanity_check_federated_token("v3.local.abcdefghijklmnop") {
        Err(AuthError::MalformedToken(m)) => {
            assert_eq!(m, "expected `v4.public.` prefix, got `v3.local.abcdefg...`")
        }
        other => panic!("unexpected {other:?}"),
    }
    let err = sanity_check_with_key("short", "k").unwrap_err();
    assert_eq!(err, "federated token did not start with `v4.public.`; got `short...` — wrong PASETO version?");
}

#[test]
fn prefix_alone_passes_the_dot_count() {
    assert!(sanity_check_federated_token("v4.public.").is_ok());
    assert!(sanity_check_with_key("v4.public.payload", "k").is_ok());
}

#[test]
fn panic_messages() {
    assert_eq!(panic_message(&PanicPayload::Text("boom".into())), "boom");
    assert_eq!(panic_message(&PanicPayload::Other), "<non-string panic payload>");
}

#[test]
fn sticky_store_lives_next_to_the_keypair() {
    assert_eq!(default_sticky_path(), "sticky_peers.json");
}
