//! Stored credentials: a salted Argon2 encoding for new accounts, and the
//! bare SHA-256 digest that older accounts still carry.

use vstd::prelude::*;
use vstd::string::StrSliceExecFns;
use vstd::utf8::{encode_utf8, is_ascii_chars, is_ascii_chars_encode_utf8};
use crate::hasher::{digest_text, nibble, sha256, text_digest};
use crate::phc::{
    carries_salt, field, is_checkable, lemma_base64_tells_bytes_apart, SALT_FIELD,
};
use crate::text::{hex_digit, same_text};

verus! {

/// The error type of the `password-hash` crate.
#[verifier::external_type_specification]
#[verifier::external_body]
pub struct ExPasswordHashError(argon2::password_hash::Error);

/// Whether `argon2::PasswordHash::new` reads `encoded` as a PHC string.
pub uninterp spec fn phc_parses(encoded: Seq<char>) -> bool;

/// Whether `Argon2::default().verify_password` accepts `secret` for the
/// parsed form of `encoded`.
pub uninterp spec fn argon2_accepts(secret: Seq<u8>, encoded: Seq<char>) -> bool;

/// The outcome of the Argon2 check: `None` where the stored text is no PHC
/// string, else whether the verifier accepts the secret.
pub open spec fn argon2_outcome(secret: Seq<u8>, stored: Seq<char>) -> Option<bool> {
    if phc_parses(stored) {
        Some(argon2_accepts(secret, stored))
    } else {
        None
    }
}

/// Parses `encoded` with `argon2::PasswordHash::new` and, where that
/// succeeds, checks `secret` against it with
/// `PasswordVerifier::verify_password` on `Argon2::default()`.
///
/// Trusted: `None` means exactly that the text did not parse; otherwise the
/// answer is the verifier's. Both are functions of the arguments alone: the
/// verifier takes algorithm, version, cost parameters and salt from the
/// encoding itself. The memory it asks for is set by the encoding.
///
/// The verifier multiplies the degree of parallelism by 8 in 32 bits before
/// it tests its range, so a text that names a larger degree than Argon2 knows
/// is not to be handed in.
#[verifier::external_body]
pub(crate) fn argon2_check(secret: &[u8], encoded: &str) -> (outcome: Option<bool>)
    requires
        is_checkable(encoded@),
    ensures
        outcome == argon2_outcome(secret@, encoded@),
{
    match argon2::PasswordHash::new(encoded) {
        Ok(parsed) => {
            let verifier = argon2::Argon2::default();
            Some(argon2::PasswordVerifier::verify_password(&verifier, secret, &parsed).is_ok())
        },
        Err(_) => None,
    }
}

/// The error type of the `rand_core` crate.
#[verifier::external_type_specification]
#[verifier::external_body]
pub struct ExRandomError(argon2::password_hash::rand_core::Error);

/// Number of random bytes in a salt.
pub const SALT_LEN: usize = 16;

/// Overwrites `salt` with bytes from the operating system's generator, by
/// `RngCore::try_fill_bytes` on `rand_core::OsRng`.
///
/// Trusted, and nothing is claimed of the bytes: they are random. An error
/// means that the system could not supply them.
#[verifier::external_body]
pub(crate) fn fill_random(salt: &mut [u8; SALT_LEN]) -> (drawn: Result<
    (),
    argon2::password_hash::rand_core::Error,
>) {
    let mut generator = argon2::password_hash::rand_core::OsRng;
    argon2::password_hash::rand_core::RngCore::try_fill_bytes(&mut generator, salt)
}

/// The PHC string that `Argon2::default().hash_password` makes of `secret`
/// with the salt bytes `salt`, or `None` where it refuses them.
pub uninterp spec fn argon2_encoding(secret: Seq<u8>, salt: Seq<u8>) -> Option<Seq<char>>;

/// Encodes the salt with `SaltString::encode_b64`, hashes `secret` with
/// `Argon2::default().hash_password` and writes the result out as a PHC
/// string.
///
/// Trusted: the outcome depends on `secret` and `salt` alone. An encoding
/// that comes back starts with `'$'` (the PHC separator), parses again, and
/// verifies against `secret`.
#[verifier::external_body]
pub(crate) fn argon2_hash(secret: &[u8], salt: &[u8; SALT_LEN]) -> (made: Result<
    String,
    argon2::password_hash::Error,
>)
    ensures
        match made {
            Ok(encoded) => {
                &&& argon2_encoding(secret@, salt@) == Some(encoded@)
                &&& encoded@.len() > 0
                &&& encoded@[0] == '$'
                &&& phc_parses(encoded@)
                &&& argon2_accepts(secret@, encoded@)
            },
            Err(_) => argon2_encoding(secret@, salt@) is None,
        },
{
    let salt = argon2::password_hash::SaltString::encode_b64(salt)?;
    let hasher = argon2::Argon2::default();
    let hash = argon2::PasswordHasher::hash_password(&hasher, secret, &salt)?;
    Ok(hash.to_string())
}

/// Why a credential could not be produced.
#[derive(Debug, Clone, Copy, PartialEq, Eq, Structural)]
pub enum CredentialError {
    /// The system could not supply the randomness for a salt.
    EntropyUnavailable,
    /// The password hashing scheme refused the input.
    HashingFailed,
}

impl From<argon2::password_hash::rand_core::Error> for CredentialError {
    fn from(e: argon2::password_hash::rand_core::Error) -> (error: Self) {
        CredentialError::EntropyUnavailable
    }
}

impl vstd::std_specs::convert::FromSpecImpl<argon2::password_hash::rand_core::Error> for CredentialError {
    open spec fn obeys_from_spec() -> bool {
        true
    }

    open spec fn from_spec(e: argon2::password_hash::rand_core::Error) -> Self {
        CredentialError::EntropyUnavailable
    }
}

impl From<argon2::password_hash::Error> for CredentialError {
    fn from(e: argon2::password_hash::Error) -> (error: Self) {
        CredentialError::HashingFailed
    }
}

impl vstd::std_specs::convert::FromSpecImpl<argon2::password_hash::Error> for CredentialError {
    open spec fn obeys_from_spec() -> bool {
        true
    }

    open spec fn from_spec(e: argon2::password_hash::Error) -> Self {
        CredentialError::HashingFailed
    }
}

/// An ASCII hexadecimal digit, of either case.
pub open spec fn is_hex_char(c: char) -> bool {
    ('0' <= c && c <= '9') || ('a' <= c && c <= 'f') || ('A' <= c && c <= 'F')
}

/// The shape of a legacy credential: exactly 64 hexadecimal digits.
pub open spec fn is_legacy_digest(stored: Seq<char>) -> bool {
    stored.len() == 64 && forall|i: int| 0 <= i < 64 ==> is_hex_char(#[trigger] stored[i])
}

/// The rule by which a stored credential is judged, given the digest of the
/// secret offered and the outcome of the Argon2 check: a credential of legacy
/// shape must equal the digest; any other goes by the Argon2 check, and where
/// it does not even parse, by the digest once more.
pub open spec fn verdict(stored: Seq<char>, digest: Seq<char>, modern: Option<bool>) -> bool {
    if is_legacy_digest(stored) {
        stored == digest
    } else {
        match modern {
            Some(accepted) => accepted,
            None => stored == digest,
        }
    }
}

/// What is made of the Argon2 check for any stored text: a text that the
/// verifier is not asked about counts as one that it rejects.
pub open spec fn checked_outcome(secret: Seq<u8>, stored: Seq<char>) -> Option<bool> {
    if is_checkable(stored) {
        argon2_outcome(secret, stored)
    } else {
        Some(false)
    }
}

/// Whether `encoded` is fit to be stored as a credential made with `salt`:
/// the verifier can later be asked about it, and it names the salt in its
/// salt field.
pub open spec fn is_storable(encoded: Seq<char>, salt: Seq<u8>) -> bool {
    is_checkable(encoded) && carries_salt(encoded, salt)
}

/// The salted credential of `secret` for the salt bytes `salt`: the encoding
/// that Argon2 makes of them, where it makes one that is fit to be stored.
pub open spec fn salted_credential(secret: Seq<char>, salt: Seq<u8>) -> Option<Seq<char>> {
    match argon2_encoding(encode_utf8(secret), salt) {
        Some(encoded) => if is_storable(encoded, salt) {
            Some(encoded)
        } else {
            None
        },
        None => None,
    }
}

/// Two different salts never give the same credential, whatever the secrets:
/// every credential names its salt.
pub proof fn lemma_salts_give_different_credentials(
    secret: Seq<char>,
    salt: Seq<u8>,
    other_secret: Seq<char>,
    other_salt: Seq<u8>,
)
    requires
        salt.len() == other_salt.len(),
        salt != other_salt,
        salted_credential(secret, salt) is Some,
    ensures
        salted_credential(secret, salt) != salted_credential(other_secret, other_salt),
{
    if salted_credential(secret, salt) == salted_credential(other_secret, other_salt) {
        let encoded = salted_credential(secret, salt)->Some_0;
        lemma_base64_tells_bytes_apart(field(encoded, SALT_FIELD as nat), salt, other_salt);
    }
}

/// Whether `encoded` is the salted credential of `secret` for some salt of
/// `SALT_LEN` bytes.
pub open spec fn is_salted_credential(secret: Seq<char>, encoded: Seq<char>) -> bool {
    exists|salt: Seq<u8>|
        salt.len() == SALT_LEN && #[trigger] salted_credential(secret, salt) == Some(encoded)
}

/// Whether the hashing scheme refuses `secret` with some salt of `SALT_LEN`
/// bytes.
pub open spec fn is_refused_with_some_salt(secret: Seq<char>) -> bool {
    exists|salt: Seq<u8>|
        salt.len() == SALT_LEN && #[trigger] salted_credential(secret, salt) is None
}

/// Whether `stored` is a credential for `secret`: a legacy digest of it, or
/// an Argon2 encoding that the verifier can be asked about and that verifies
/// against it.
pub open spec fn credential_accepts(secret: Seq<char>, stored: Seq<char>) -> bool {
    if is_legacy_digest(stored) {
        stored == text_digest(secret)
    } else {
        &&& is_checkable(stored)
        &&& phc_parses(stored)
        &&& argon2_accepts(encode_utf8(secret), stored)
    }
}

/// Every digest text has the legacy shape.
pub proof fn lemma_digest_text_is_legacy_shaped(bytes: Seq<u8>)
    ensures
        is_legacy_digest(digest_text(bytes)),
{
    let text = digest_text(bytes);
    assert forall|i: int| 0 <= i < 64 implies is_hex_char(#[trigger] text[i]) by {
        assert(text[i] == hex_digit(nibble(bytes, i)));
    }
}

/// The legacy digest of a secret is a credential for that secret.
pub proof fn lemma_legacy_credential_verifies(secret: Seq<char>)
    ensures
        credential_accepts(secret, text_digest(secret)),
{
    lemma_digest_text_is_legacy_shaped(sha256(encode_utf8(secret)));
}

/// With the true digest of the secret and the true outcome of the Argon2
/// check, the verdict is that the credential is one for the secret: the
/// second comparison with the digest never succeeds.
pub proof fn lemma_verdict_is_acceptance(secret: Seq<char>, stored: Seq<char>)
    ensures
        verdict(stored, text_digest(secret), checked_outcome(encode_utf8(secret), stored))
            == credential_accepts(secret, stored),
{
    lemma_digest_text_is_legacy_shaped(sha256(encode_utf8(secret)));
}

/// Tells whether `stored` has the shape of a legacy credential.
pub fn has_legacy_shape(stored: &str) -> (legacy: bool)
    ensures
        legacy == is_legacy_digest(stored@),
{
    if !stored.is_ascii() {
        return false;
    }
    proof {
        is_ascii_chars_encode_utf8(stored@);
    }
    if stored.as_bytes().len() != 64 {
        return false;
    }
    let mut i: usize = 0;
    while i < 64
        invariant
            i <= 64,
            stored@.len() == 64,
            is_ascii_chars(stored@),
            forall|k: int| 0 <= k < i ==> is_hex_char(#[trigger] stored@[k]),
        decreases 64 - i,
    {
        let b: u8 = stored.get_ascii(i);
        let hex = (48 <= b && b <= 57) || (97 <= b && b <= 102) || (65 <= b && b <= 70);
        proof {
            let c: char = stored@[i as int];
            assert('\0' <= c && c <= '\u{7f}');
            assert(hex == is_hex_char(c));
        }
        if !hex {
            return false;
        }
        i += 1;
    }
    true
}

/// Judges a stored credential from the digest of the secret offered and the
/// outcome of the Argon2 check.
pub fn credential_verdict(stored: &str, digest: &str, modern: Option<bool>) -> (ok: bool)
    ensures
        ok == verdict(stored@, digest@, modern),
{
    if has_legacy_shape(stored) {
        return same_text(stored, digest);
    }
    match modern {
        Some(accepted) => accepted,
        None => same_text(stored, digest),
    }
}

} // verus!
