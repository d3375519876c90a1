use vstd::prelude::*;
use vstd::string::StringExecFns;

use crate::order::{lex_le, str_le};

verus! {

/// The lower-case hexadecimal SHA-1 digest of the UTF-8 bytes of `s`.
pub uninterp spec fn sha1_hex_of(s: Seq<char>) -> Seq<char>;

/// Relies on rust-crypto's `Sha1` with `Digest::input_str`, which hashes the
/// string's UTF-8 bytes, and `Digest::result_str`, which writes the digest in
/// hexadecimal: a function of the string alone.
#[verifier::external_body]
fn sha1_hex(s: &str) -> (r: String)
    ensures
        r@ == sha1_hex_of(s@),
{
    let mut hasher = crypto::sha1::Sha1::new();
    crypto::digest::Digest::input_str(&mut hasher, s);
    crypto::digest::Digest::result_str(&mut hasher)
}

/// The three strings in non-decreasing order.
pub open spec fn sorted3(a: Seq<char>, b: Seq<char>, c: Seq<char>) -> (Seq<char>, Seq<char>, Seq<char>) {
    if lex_le(a, b) {
        if lex_le(b, c) {
            (a, b, c)
        } else if lex_le(a, c) {
            (a, c, b)
        } else {
            (c, a, b)
        }
    } else {
        if lex_le(a, c) {
            (b, a, c)
        } else if lex_le(b, c) {
            (b, c, a)
        } else {
            (c, b, a)
        }
    }
}

/// What the push platform signs: token, timestamp and nonce, sorted and
/// joined.
pub open spec fn signed_text(token: Seq<char>, timestamp: Seq<char>, nonce: Seq<char>) -> Seq<char> {
    let s = sorted3(token, timestamp, nonce);
    s.0 + s.1 + s.2
}

/// The text to hash for a signature check: `token`, `timestamp` and `nonce`
/// in sorted order, joined.
pub fn signature_input(token: &str, timestamp: &str, nonce: &str) -> (r: String)
    ensures
        r@ == signed_text(token@, timestamp@, nonce@),
{
    let (x, y, z) = if str_le(token, timestamp) {
        if str_le(timestamp, nonce) {
            (token, timestamp, nonce)
        } else if str_le(token, nonce) {
            (token, nonce, timestamp)
        } else {
            (nonce, token, timestamp)
        }
    } else {
        if str_le(token, nonce) {
            (timestamp, token, nonce)
        } else if str_le(timestamp, nonce) {
            (timestamp, nonce, token)
        } else {
            (nonce, timestamp, token)
        }
    };
    let mut r = x.to_owned();
    r.append(y);
    r.append(z);
    r
}

/// Whether `signature` is the digest `digest` that was computed of the signed
/// text.
pub fn signature_matches(signature: &str, digest: &str) -> (r: bool)
    ensures
        r == (signature@ == digest@),
{
    signature.to_owned() == digest.to_owned()
}

/// Checks a request of the push platform: `signature` must be the SHA-1
/// digest of the sorted and joined `token`, `timestamp` and `nonce`.
pub fn check_signature(token: &str, signature: &str, timestamp: &str, nonce: &str) -> (r: bool)
    ensures
        r == (signature@ == sha1_hex_of(signed_text(token@, timestamp@, nonce@))),
{
    let text = signature_input(token, timestamp, nonce);
    let digest = sha1_hex(text.as_str());
    signature_matches(signature, digest.as_str())
}

} // verus!
