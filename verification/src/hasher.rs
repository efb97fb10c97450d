//! Content hashing: SHA-256 digests and their lower-case hexadecimal text.

use vstd::prelude::*;
use vstd::string::StringExecFns;
use vstd::utf8::{encode_utf8, encode_utf8_decode_utf8};
use crate::text::{digit_str, hex_digit, lemma_hex_digit_is_injective};

verus! {

/// The SHA-256 digest of a byte string, as the `sha2` crate computes it.
pub uninterp spec fn sha256(data: Seq<u8>) -> Seq<u8>;

/// Runs `sha2::Sha256` over `data` (`Digest::new`, `update`, `finalize`).
///
/// Trusted: the 32 bytes returned are the SHA-256 digest of `data`; they
/// depend on `data` and on nothing else.
#[verifier::external_body]
pub(crate) fn sha256_digest(data: &[u8]) -> (out: [u8; 32])
    ensures
        out@ == sha256(data@),
{
    let mut hasher = <sha2::Sha256 as sha2::Digest>::new();
    sha2::Digest::update(&mut hasher, data);
    sha2::Digest::finalize(hasher).into()
}

/// The `i`-th half-byte of `bytes`, high half first.
pub open spec fn nibble(bytes: Seq<u8>, i: int) -> nat {
    if i % 2 == 0 {
        (bytes[i / 2] / 16) as nat
    } else {
        (bytes[i / 2] % 16) as nat
    }
}

/// The text of a 32-byte digest: two lower-case hexadecimal digits for each
/// byte, 64 characters in all.
pub open spec fn digest_text(bytes: Seq<u8>) -> Seq<char> {
    Seq::new(64, |i: int| hex_digit(nibble(bytes, i)))
}

/// The digest of a text: the hexadecimal text of the SHA-256 digest of its
/// UTF-8 encoding.
pub open spec fn text_digest(text: Seq<char>) -> Seq<char> {
    digest_text(sha256(encode_utf8(text)))
}

/// Two different byte strings to which SHA-256 gives the same 32 bytes.
pub open spec fn is_sha256_collision(x: Seq<u8>, y: Seq<u8>) -> bool {
    x != y && forall|k: int| 0 <= k < 32 ==> sha256(x)[k] == sha256(y)[k]
}

/// Digest texts that agree were written for digests that agree in each of
/// their 32 bytes.
pub proof fn lemma_digest_text_is_injective(x: Seq<u8>, y: Seq<u8>)
    requires
        digest_text(x) == digest_text(y),
    ensures
        forall|k: int| 0 <= k < 32 ==> x[k] == y[k],
{
    assert forall|k: int| 0 <= k < 32 implies x[k] == y[k] by {
        let high = 2 * k;
        let low = 2 * k + 1;
        assert(digest_text(x)[high] == hex_digit(nibble(x, high)));
        assert(digest_text(y)[high] == hex_digit(nibble(y, high)));
        assert(digest_text(x)[low] == hex_digit(nibble(x, low)));
        assert(digest_text(y)[low] == hex_digit(nibble(y, low)));
        assert(nibble(x, high) == x[k] / 16 && nibble(x, low) == x[k] % 16);
        assert(nibble(y, high) == y[k] / 16 && nibble(y, low) == y[k] % 16);
        lemma_hex_digit_is_injective(nibble(x, high), nibble(y, high));
        lemma_hex_digit_is_injective(nibble(x, low), nibble(y, low));
    }
}

/// Different texts can have the same digest only where SHA-256 collides on
/// their UTF-8 encodings.
pub proof fn lemma_equal_digests_need_a_collision(s: Seq<char>, t: Seq<char>)
    requires
        s != t,
        text_digest(s) == text_digest(t),
    ensures
        is_sha256_collision(encode_utf8(s), encode_utf8(t)),
{
    encode_utf8_decode_utf8(s);
    encode_utf8_decode_utf8(t);
    lemma_digest_text_is_injective(sha256(encode_utf8(s)), sha256(encode_utf8(t)));
}

/// Writes a digest as 64 lower-case hexadecimal digits.
pub fn digest_to_hex(bytes: &[u8; 32]) -> (s: String)
    ensures
        s@ == digest_text(bytes@),
{
    let mut s = String::new();
    let mut i: usize = 0;
    while i < 32
        invariant
            i <= 32,
            s@.len() == 2 * i,
            forall|k: int| 0 <= k < 2 * i ==> s@[k] == hex_digit(nibble(bytes@, k)),
        decreases 32 - i,
    {
        let b: u8 = bytes[i];
        s.append(digit_str(b / 16));
        s.append(digit_str(b % 16));
        i += 1;
    }
    assert(s@ =~= digest_text(bytes@));
    s
}

/// The SHA-256 digest of the UTF-8 encoding of `text`.
pub fn digest_bytes(text: &str) -> (digest: [u8; 32])
    ensures
        digest@ == sha256(encode_utf8(text@)),
{
    sha256_digest(text.as_bytes())
}

/// The digest of `text`, as 64 lower-case hexadecimal digits.
pub fn digest_hex(text: &str) -> (s: String)
    ensures
        s@ == text_digest(text@),
{
    let digest = digest_bytes(text);
    digest_to_hex(&digest)
}

} // verus!
