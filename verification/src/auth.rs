//! Shape checks on the federated PASETO the auth service returns. The hub
//! does the trusted cryptographic validation; these only make a
//! malfunctioning auth service fail fast.
use vstd::prelude::*;

use crate::errors::AuthError;
use crate::text::{chars_of, concat, count_char, count_occurrences, decimal, decimal_string, starts_with_chars, string_of};

verus! {

/// The header every v4.public PASETO starts with.
pub open spec fn v4_public_prefix() -> Seq<char> {
    "v4.public."@
}

/// At most the first 16 characters of `s`.
pub open spec fn head16(s: Seq<char>) -> Seq<char> {
    if s.len() <= 16 { s } else { s.take(16) }
}

/// Whether `s` starts with `p`.
pub open spec fn has_prefix(s: Seq<char>, p: Seq<char>) -> bool {
    p.len() <= s.len() && s.subrange(0, p.len() as int) == p
}

/// How a token fails the shape check, if it does: empty; not starting with
/// the v4.public header; fewer than two `.` separators.
pub enum TokenProblem {
    Empty,
    WrongHeader(Seq<char>),
    TooFewDots(nat),
}

pub open spec fn token_problem(token: Seq<char>) -> Option<TokenProblem> {
    if token.len() == 0 {
        Some(TokenProblem::Empty)
    } else if !has_prefix(token, v4_public_prefix()) {
        Some(TokenProblem::WrongHeader(head16(token)))
    } else if count_char(token, '.') < 2 {
        Some(TokenProblem::TooFewDots(count_char(token, '.')))
    } else {
        None
    }
}

fn head16_of(v: &Vec<char>) -> (s: String)
    ensures
        s@ == head16(v@),
{
    if v.len() <= 16 {
        string_of(v.as_slice())
    } else {
        let s = string_of(&v.as_slice()[0..16]);
        assert(v@.subrange(0, 16) =~= v@.take(16));
        s
    }
}

/// Shape-only check on a federated PASETO: it must be non-empty, start
/// with `v4.public.` and hold at least two `.` separators.
pub fn sanity_check_federated_token(token: &str) -> (r: Result<(), AuthError>)
    ensures
        match token_problem(token@) {
            None => r is Ok,
            Some(TokenProblem::Empty) => r matches Err(AuthError::EmptyToken),
            Some(TokenProblem::WrongHeader(head)) => r matches Err(AuthError::MalformedToken(m))
                && m@ == "expected `v4.public.` prefix, got `"@ + head + "...`"@,
            Some(TokenProblem::TooFewDots(n)) => r matches Err(AuthError::MalformedToken(m))
                && m@ == "only "@ + decimal(n) + " `.` separator(s); expected at least 2 for PASETO v4.public"@,
        },
{
    let v = chars_of(token);
    if v.len() == 0 {
        return Err(AuthError::EmptyToken);
    }
    let prefix = chars_of("v4.public.");
    if !starts_with_chars(v.as_slice(), prefix.as_slice()) {
        let head = head16_of(&v);
        let m = concat(concat("expected `v4.public.` prefix, got `", head.as_str()).as_str(), "...`");
        return Err(AuthError::MalformedToken(m));
    }
    let dots = count_occurrences(v.as_slice(), '.');
    if dots < 2 {
        let d = decimal_string(dots as u128);
        let m = concat(
            concat("only ", d.as_str()).as_str(),
            " `.` separator(s); expected at least 2 for PASETO v4.public",
        );
        return Err(AuthError::MalformedToken(m));
    }
    Ok(())
}

/// The message of the bootstrap-time shape check, for a token with a
/// problem.
pub open spec fn bootstrap_token_message(p: TokenProblem) -> Seq<char> {
    match p {
        TokenProblem::Empty => "auth service returned an empty federated token"@,
        TokenProblem::WrongHeader(head) => "federated token did not start with `v4.public.`; got `"@ + head
            + "...` — wrong PASETO version?"@,
        TokenProblem::TooFewDots(n) => "federated token has only "@ + decimal(n)
            + " `.` separator(s); expected at least 2 for PASETO v4.public"@,
    }
}

/// The same shape check made when the network authenticates, reporting a
/// failure as a message. The expected public key is not consulted: the
/// hub validates the token's signature.
pub fn check_federated_token(token: &str, expected_pubkey_b58: &str) -> (r: Result<(), String>)
    ensures
        match token_problem(token@) {
            None => r is Ok,
            Some(p) => r matches Err(m) && m@ == bootstrap_token_message(p),
        },
{
    let v = chars_of(token);
    if v.len() == 0 {
        return Err("auth service returned an empty federated token".to_owned());
    }
    let prefix = chars_of("v4.public.");
    if !starts_with_chars(v.as_slice(), prefix.as_slice()) {
        let head = head16_of(&v);
        let m = concat(
            concat("federated token did not start with `v4.public.`; got `", head.as_str()).as_str(),
            "...` — wrong PASETO version?",
        );
        return Err(m);
    }
    let dots = count_occurrences(v.as_slice(), '.');
    if dots < 2 {
        let d = decimal_string(dots as u128);
        let m = concat(
            concat("federated token has only ", d.as_str()).as_str(),
            " `.` separator(s); expected at least 2 for PASETO v4.public",
        );
        return Err(m);
    }
    Ok(())
}

/// A panic's payload, as far as its message goes: the text it carried, or
/// none when it was not a string.
#[derive(Debug, Clone)]
pub enum PanicPayload {
    Text(String),
    Other,
}

/// The message of a panic: its text, or a fixed note for a non-string
/// payload.
pub fn panic_message(payload: &PanicPayload) -> (m: String)
    ensures
        m@ == (match payload {
            PanicPayload::Text(t) => t@,
            PanicPayload::Other => "<non-string panic payload>"@,
        }),
{
    match payload {
        PanicPayload::Text(t) => t.clone(),
        PanicPayload::Other => "<non-string panic payload>".to_owned(),
    }
}

/// Where the remembered exits are persisted, relative to the working
/// directory.
pub fn default_sticky_path() -> (p: &'static str)
    ensures
        p@ == "sticky_peers.json"@,
{
    "sticky_peers.json"
}

proof fn lemma_count_prefix(s: Seq<char>, k: int, c: char)
    requires
        0 <= k <= s.len(),
    ensures
        count_char(s.subrange(0, k), c) <= count_char(s, c),
    decreases s.len(),
{
    if k < s.len() {
        assert(s.drop_last().subrange(0, k) =~= s.subrange(0, k));
        lemma_count_prefix(s.drop_last(), k, c);
    } else {
        assert(s.subrange(0, k) =~= s);
    }
}

/// The header alone decides: a token passes the shape check exactly when
/// it starts with `v4.public.` (the header itself holds the two dots the
/// check asks for, and is not empty).
pub proof fn law_prefix_decides(token: Seq<char>)
    ensures
        token_problem(token) is None <==> has_prefix(token, v4_public_prefix()),
{
    reveal_strlit("v4.public.");
    let p = v4_public_prefix();
    assert(p =~= seq!['v', '4', '.', 'p', 'u', 'b', 'l', 'i', 'c', '.']);
    assert(count_char(p, '.') == 2) by {
        reveal_with_fuel(count_char, 11);
    }
    if has_prefix(token, p) {
        lemma_count_prefix(token, p.len() as int, '.');
    }
}

} // verus!
