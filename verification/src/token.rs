//! Bearer tokens: made from 32 random bytes, stored only as their SHA-256
//! hash, compared in constant time.
use base64ct::Encoding;
use rand::RngCore;
use sha2::Digest;
use vstd::prelude::*;
use vstd::utf8::encode_utf8;

verus! {

/// The SHA-256 digest of `data`.
pub uninterp spec fn sha256(data: Seq<u8>) -> Seq<u8>;

/// Calls `sha2::Sha256::digest`, trusted to give the 32-byte SHA-256 digest
/// of `data`; the digest itself is named, not spelled out.
#[verifier::external_body]
fn sha256_digest(data: &[u8]) -> (r: Vec<u8>)
    ensures
        r@ == sha256(data@),
        r@.len() == 32,
{
    sha2::Sha256::digest(data).to_vec()
}

/// Calls `rand::rngs::OsRng::try_fill_bytes` on 32 bytes: random bytes from
/// the operating system, or `None` when it cannot supply them.  Nothing is
/// claimed of their values, nor of when the call fails.
#[verifier::external_body]
fn os_random_32() -> (r: Option<Vec<u8>>)
    ensures
        r matches Some(v) ==> v@.len() == 32,
{
    let mut bytes = [0u8; 32];
    match rand::rngs::OsRng.try_fill_bytes(&mut bytes) {
        Ok(()) => Some(bytes.to_vec()),
        Err(_) => None,
    }
}

/// The URL-safe base64 digit for `v` in `0..64`: `A-Z a-z 0-9 - _`.
pub open spec fn b64_digit(v: int) -> char {
    if v < 26 {
        (('A' as int) + v) as char
    } else if v < 52 {
        (('a' as int) + v - 26) as char
    } else if v < 62 {
        (('0' as int) + v - 52) as char
    } else if v == 62 {
        '-'
    } else {
        '_'
    }
}

/// URL-safe base64 of `b` without padding: each three bytes become four
/// digits, a last one or two bytes become two or three.
pub open spec fn base64url_unpadded(b: Seq<u8>) -> Seq<char>
    decreases b.len(),
{
    if b.len() == 0 {
        seq![]
    } else {
        let b0 = b[0] as int;
        let b1 = if b.len() > 1 { b[1] as int } else { 0 };
        let b2 = if b.len() > 2 { b[2] as int } else { 0 };
        if b.len() == 1 {
            seq![b64_digit(b0 / 4), b64_digit((b0 % 4) * 16)]
        } else if b.len() == 2 {
            seq![b64_digit(b0 / 4), b64_digit((b0 % 4) * 16 + b1 / 16), b64_digit((b1 % 16) * 4)]
        } else {
            seq![
                b64_digit(b0 / 4),
                b64_digit((b0 % 4) * 16 + b1 / 16),
                b64_digit((b1 % 16) * 4 + b2 / 64),
                b64_digit(b2 % 64),
            ] + base64url_unpadded(b.subrange(3, b.len() as int))
        }
    }
}

/// Calls `base64ct::Base64UrlUnpadded::encode_string`, trusted to give the
/// URL-safe base64 of `bytes` without padding, as `base64url_unpadded`
/// spells it out (RFC 4648, section 5).
#[verifier::external_body]
fn encode_base64url(bytes: &[u8]) -> (r: String)
    requires
        bytes@.len() <= 0x1000_0000,
    ensures
        r@ == base64url_unpadded(bytes@),
{
    base64ct::Base64UrlUnpadded::encode_string(bytes)
}

/// The text of a token made from `bytes`: `bbln_` and their URL-safe
/// base64.
pub open spec fn token_text(bytes: Seq<u8>) -> Seq<char> {
    seq!['b', 'b', 'l', 'n', '_'] + base64url_unpadded(bytes)
}

/// Whether `t` is the text of a token made from some 32 bytes.
pub open spec fn is_token_text(t: Seq<char>) -> bool {
    exists|bytes: Seq<u8>| bytes.len() == 32 && t == token_text(bytes)
}

/// What is stored of token `t`: the SHA-256 of its UTF-8 bytes.
pub open spec fn token_hash(t: Seq<char>) -> Seq<u8> {
    sha256(encode_utf8(t))
}

/// Whether `t` is the URL-safe base64 of some 32 bytes.
pub open spec fn is_csrf_text(t: Seq<char>) -> bool {
    exists|bytes: Seq<u8>| bytes.len() == 32 && t == base64url_unpadded(bytes)
}

/// The anti-forgery token made from `bytes`: their URL-safe base64,
/// without padding.
pub fn csrf_token_from_bytes(bytes: &[u8]) -> (r: String)
    requires
        bytes@.len() == 32,
    ensures
        r@ == base64url_unpadded(bytes@),
{
    encode_base64url(bytes)
}

/// A fresh anti-forgery token for the dashboard: 32 random bytes in
/// URL-safe base64 without padding (`csrf_token_from_bytes`); `None` when
/// no random bytes could be had.
pub fn generate_csrf_token() -> (r: Option<String>)
    ensures
        r matches Some(t) ==> is_csrf_text(t@),
{
    match os_random_32() {
        Some(bytes) => Some(csrf_token_from_bytes(bytes.as_slice())),
        None => None,
    }
}

/// The token made from `bytes`: `bbln_` and their URL-safe base64.
pub fn token_from_bytes(bytes: &[u8]) -> (r: String)
    requires
        bytes@.len() == 32,
    ensures
        r@ == token_text(bytes@),
{
    let enc = encode_base64url(bytes);
    let r = crate::text::concat(crate::text::owned("bbln_"), enc.as_str());
    proof {
        reveal_strlit("bbln_");
        assert(r@ =~= token_text(bytes@));
    }
    r
}

/// A fresh token from 32 random bytes (`token_from_bytes`); `None` when no
/// random bytes could be had.
pub fn generate_token() -> (r: Option<String>)
    ensures
        r matches Some(t) ==> is_token_text(t@),
{
    match os_random_32() {
        Some(bytes) => Some(token_from_bytes(bytes.as_slice())),
        None => None,
    }
}

/// 32 random bytes, to make a token from or to store as the operator's
/// unusable hash; `None` when no random bytes could be had.
pub fn random_hash() -> (r: Option<Vec<u8>>)
    ensures
        r matches Some(v) ==> v@.len() == 32,
{
    os_random_32()
}

/// The SHA-256 of `token`'s UTF-8 bytes.
pub fn hash_token(token: &str) -> (r: Vec<u8>)
    ensures
        r@ == token_hash(token@),
        r@.len() == 32,
{
    sha256_digest(token.as_bytes())
}

/// Whether `token` hashes to `expected`, comparing every byte whatever the
/// first difference.
pub fn verify(token: &str, expected_hash: &[u8]) -> (r: bool)
    ensures
        r == (token_hash(token@) == expected_hash@),
{
    let got = hash_token(token);
    if got.len() != expected_hash.len() {
        return false;
    }
    let n = got.len();
    let mut acc: u8 = 0;
    let mut i: usize = 0;
    assert(got@.take(0) =~= expected_hash@.take(0));
    while i < n
        invariant
            n == got@.len(),
            n == expected_hash@.len(),
            i <= n,
            (acc == 0) == (got@.take(i as int) == expected_hash@.take(i as int)),
        decreases n - i,
    {
        let x = got[i];
        let y = expected_hash[i];
        let next = acc | (x ^ y);
        assert((next == 0) == (acc == 0 && x == y)) by (bit_vector)
            requires
                next == acc | (x ^ y),
        ;
        proof {
            assert(got@.take(i + 1) =~= got@.take(i as int).push(x));
            assert(expected_hash@.take(i + 1) =~= expected_hash@.take(i as int).push(y));
            if got@.take(i + 1) == expected_hash@.take(i + 1) {
                assert(got@.take(i + 1)[i as int] == expected_hash@.take(i + 1)[i as int]);
                assert(got@.take(i as int) =~= got@.take(i + 1).drop_last());
                assert(expected_hash@.take(i as int) =~= expected_hash@.take(i + 1).drop_last());
            }
        }
        acc = next;
        i = i + 1;
    }
    proof {
        assert(got@.take(n as int) =~= got@);
        assert(expected_hash@.take(n as int) =~= expected_hash@);
    }
    acc == 0
}

} // verus!
