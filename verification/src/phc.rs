//! What the library itself reads of an Argon2 encoding: the degree of
//! parallelism among its parameters, before it hands a stored text to the
//! verifier, and the salt, before it hands a fresh encoding out.
//!
//! An encoding is a line of fields that begin with `'$'`; the parameter
//! field is a list of `name=value` pieces with `','` between them, and the
//! salt is written in Base64 without padding.

use vstd::prelude::*;
use vstd::string::StrSliceExecFns;
use vstd::utf8::{encode_utf8, is_ascii_chars, is_ascii_chars_encode_utf8};
use crate::credential::SALT_LEN;
use crate::text::{digit_value, lemma_numeral_prefix_is_no_larger, numeral_value};

verus! {

/// The largest degree of parallelism that Argon2 knows: 2^24 - 1.
pub const MAX_PARALLELISM: u32 = 16_777_215;

const DOLLAR: u8 = 36;

const COMMA: u8 = 44;

const EQUALS: u8 = 61;

const LETTER_P: u8 = 112;

const DIGIT_ZERO: u8 = 48;

const DIGIT_NINE: u8 = 57;

/// A character that ends a piece: the `'$'` before a field, or the `','`
/// between two parameters.
pub open spec fn is_separator(c: char) -> bool {
    c == '$' || c == ','
}

/// A decimal digit.
pub open spec fn is_decimal_digit(c: char) -> bool {
    '0' <= c && c <= '9'
}

/// Where the piece that `from` stands in ends: at the next separator, or at
/// the end of the text.
pub open spec fn piece_end(text: Seq<char>, from: int) -> int
    decreases text.len() - from,
{
    if from < 0 || from >= text.len() || is_separator(text[from]) {
        from
    } else {
        piece_end(text, from + 1)
    }
}

/// Whether `value` is written in decimal digits alone and stands for a number
/// of at most `max`.
pub open spec fn is_numeral_up_to(value: Seq<char>, max: nat) -> bool {
    &&& forall|k: int| 0 <= k < value.len() ==> is_decimal_digit(#[trigger] value[k])
    &&& numeral_value(value) <= max
}

/// Whether a piece that begins with `p=` starts at `i`: at the start of the
/// text or right behind a separator.
pub open spec fn starts_parallelism(text: Seq<char>, i: int) -> bool {
    &&& 0 <= i
    &&& i + 1 < text.len()
    &&& (i == 0 || is_separator(text[i - 1]))
    &&& text[i] == 'p'
    &&& text[i + 1] == '='
}

/// What the piece that starts at `i` gives as its value: all that follows
/// `p=` up to the end of the piece.
pub open spec fn parallelism_value(text: Seq<char>, i: int) -> Seq<char> {
    text.subrange(i + 2, piece_end(text, i + 2))
}

/// Whether every piece of `text` that begins with `p=` gives a decimal number
/// of at most `MAX_PARALLELISM`.
pub open spec fn parallelism_in_range(text: Seq<char>) -> bool {
    forall|i: int| #[trigger]
        starts_parallelism(text, i) ==> is_numeral_up_to(
            parallelism_value(text, i),
            MAX_PARALLELISM as nat,
        )
}

/// The texts that the Argon2 verifier is asked about: ASCII throughout, and
/// with no degree of parallelism beyond what Argon2 knows.
pub open spec fn is_checkable(text: Seq<char>) -> bool {
    is_ascii_chars(text) && parallelism_in_range(text)
}

/// Where the field that `from` stands in ends: at the next `'$'`, or at the
/// end of the text.
pub open spec fn field_end(text: Seq<char>, from: int) -> int
    decreases text.len() - from,
{
    if from < 0 || from >= text.len() || text[from] == '$' {
        from
    } else {
        field_end(text, from + 1)
    }
}

/// Where field `k` starts, counting from the (empty) field before the first
/// `'$'`: each field starts right behind the `'$'` that ends the one before.
pub open spec fn field_start(text: Seq<char>, k: nat) -> int
    decreases k,
{
    if k == 0 {
        0
    } else {
        field_end(text, field_start(text, (k - 1) as nat)) + 1
    }
}

/// Field `k` of the text, empty where the text has no such field.
pub open spec fn field(text: Seq<char>, k: nat) -> Seq<char> {
    let start = field_start(text, k);
    if start <= text.len() {
        text.subrange(start, field_end(text, start))
    } else {
        Seq::empty()
    }
}

/// The field that holds the salt in an encoding with a version and a
/// parameter field: `$argon2id$v=..$m=..,t=..,p=..$salt$hash`.
pub const SALT_FIELD: usize = 4;

/// Number of Base64 characters that a salt of `SALT_LEN` bytes is written
/// with.
pub const SALT_TEXT_LEN: usize = 22;

/// The `i`-th group of six bits of `bytes`, high bits first; bits behind the
/// last byte count as zero.
pub open spec fn sextet(bytes: Seq<u8>, i: int) -> nat {
    let first = 3 * (i / 4);
    let at = |k: int| if 0 <= k < bytes.len() { bytes[k] as nat } else { 0nat };
    if i % 4 == 0 {
        at(first) / 4
    } else if i % 4 == 1 {
        (at(first) % 4) * 16 + at(first + 1) / 16
    } else if i % 4 == 2 {
        (at(first + 1) % 16) * 4 + at(first + 2) / 64
    } else {
        at(first + 2) % 64
    }
}

/// The ASCII code of the Base64 character for a six-bit value: `A`-`Z`,
/// `a`-`z`, `0`-`9`, `+`, `/`.
pub open spec fn base64_code(value: nat) -> u8 {
    if value < 26 {
        (65 + value) as u8
    } else if value < 52 {
        (71 + value) as u8
    } else if value < 62 {
        (value - 4) as u8
    } else if value == 62 {
        43
    } else {
        47
    }
}

/// Number of characters that Base64 without padding writes for `n` bytes.
pub open spec fn base64_len(n: nat) -> nat {
    (n * 8 + 5) / 6
}

/// Whether `text` is the Base64 of `bytes`, without padding.
pub open spec fn is_base64_of(text: Seq<char>, bytes: Seq<u8>) -> bool {
    &&& text.len() == base64_len(bytes.len())
    &&& forall|i: int|
        0 <= i < text.len() ==> (#[trigger] text[i]) as int == base64_code(sextet(bytes, i))
}

/// Whether `text` is ASCII throughout and its salt field is the Base64 of
/// `salt`.
pub open spec fn carries_salt(text: Seq<char>, salt: Seq<u8>) -> bool {
    is_ascii_chars(text) && is_base64_of(field(text, SALT_FIELD as nat), salt)
}

/// Different six-bit values are written with different characters.
pub proof fn lemma_base64_code_is_injective(x: nat, y: nat)
    requires
        x < 64,
        y < 64,
        base64_code(x) == base64_code(y),
    ensures
        x == y,
{
}

/// A group of six bits is a number below 64.
pub proof fn lemma_sextet_is_six_bits(bytes: Seq<u8>, i: int)
    ensures
        sextet(bytes, i) < 64,
{
}

/// Base64 can be read back: one text is the Base64 of at most one byte
/// string of a given length.
pub proof fn lemma_base64_tells_bytes_apart(text: Seq<char>, a: Seq<u8>, b: Seq<u8>)
    requires
        a.len() == b.len(),
        is_base64_of(text, a),
        is_base64_of(text, b),
    ensures
        a == b,
{
    assert forall|j: int| 0 <= j < a.len() implies a[j] == b[j] by {
        let g = j / 3;
        let first = 4 * g;
        assert(j == 3 * g + j % 3);
        assert(first + (j % 3) + 1 < text.len());
        assert forall|i: int| first <= i <= first + 3 && i < text.len() implies sextet(a, i)
            == sextet(b, i) by {
            lemma_sextet_is_six_bits(a, i);
            lemma_sextet_is_six_bits(b, i);
            assert(text[i] as int == base64_code(sextet(a, i)));
            assert(text[i] as int == base64_code(sextet(b, i)));
            lemma_base64_code_is_injective(sextet(a, i), sextet(b, i));
        }
        assert(3 * (first / 4) == 3 * g);
        assert(3 * ((first + 1) / 4) == 3 * g);
        assert(3 * ((first + 2) / 4) == 3 * g);
        assert(3 * ((first + 3) / 4) == 3 * g);
        assert(first % 4 == 0 && (first + 1) % 4 == 1 && (first + 2) % 4 == 2 && (first + 3) % 4
            == 3);
        if j % 3 == 0 {
            assert(sextet(a, first) == sextet(b, first));
            assert(sextet(a, first + 1) == sextet(b, first + 1));
            assert(a[j] as nat == sextet(a, first) * 4 + sextet(a, first + 1) / 16);
            assert(b[j] as nat == sextet(b, first) * 4 + sextet(b, first + 1) / 16);
        } else if j % 3 == 1 {
            assert(sextet(a, first + 1) == sextet(b, first + 1));
            assert(sextet(a, first + 2) == sextet(b, first + 2));
            assert(a[j] as nat == (sextet(a, first + 1) % 16) * 16 + sextet(a, first + 2) / 4);
            assert(b[j] as nat == (sextet(b, first + 1) % 16) * 16 + sextet(b, first + 2) / 4);
        } else {
            assert(sextet(a, first + 2) == sextet(b, first + 2));
            assert(sextet(a, first + 3) == sextet(b, first + 3));
            assert(a[j] as nat == (sextet(a, first + 2) % 4) * 64 + sextet(a, first + 3));
            assert(b[j] as nat == (sextet(b, first + 2) % 4) * 64 + sextet(b, first + 3));
        }
    }
    assert(a =~= b);
}

/// A piece ends at or behind the place where it is entered, and within the
/// text.
pub proof fn lemma_piece_end_bounds(text: Seq<char>, from: int)
    requires
        0 <= from <= text.len(),
    ensures
        from <= piece_end(text, from) <= text.len(),
    decreases text.len() - from,
{
    if from < text.len() && !is_separator(text[from]) {
        lemma_piece_end_bounds(text, from + 1);
    }
}

/// Tells whether the piece of `stored` from `from` to its end is a decimal
/// number of at most `MAX_PARALLELISM`.
fn value_in_range(stored: &str, from: usize) -> (ok: bool)
    requires
        is_ascii_chars(stored@),
        from <= stored@.len(),
    ensures
        ok == is_numeral_up_to(
            stored@.subrange(from as int, piece_end(stored@, from as int)),
            MAX_PARALLELISM as nat,
        ),
{
    let bytes = stored.as_bytes();
    let n = bytes.len();
    proof {
        is_ascii_chars_encode_utf8(stored@);
    }
    let ghost text = stored@;
    let ghost end = piece_end(text, from as int);
    let mut j: usize = from;
    let mut value: u32 = 0;
    assert(text.subrange(from as int, j as int) =~= Seq::<char>::empty());
    while j < n && bytes[j] != DOLLAR && bytes[j] != COMMA
        invariant
            from <= j <= n,
            n == text.len(),
            n == bytes@.len(),
            text == stored@,
            bytes@ == encode_utf8(text),
            is_ascii_chars(text),
            end == piece_end(text, from as int),
            end == piece_end(text, j as int),
            forall|k: int| from <= k < j ==> is_decimal_digit(#[trigger] text[k]),
            value == numeral_value(text.subrange(from as int, j as int)),
            value <= MAX_PARALLELISM,
        decreases n - j,
    {
        let b: u8 = bytes[j];
        proof {
            is_ascii_chars_encode_utf8(text);
            lemma_piece_end_bounds(text, j + 1);
            assert(text[j as int] as u8 == b);
            assert(!is_separator(text[j as int]));
            assert(piece_end(text, j as int) == piece_end(text, j + 1));
        }
        let ghost whole = text.subrange(from as int, end);
        if b < DIGIT_ZERO || b > DIGIT_NINE {
            assert(!is_decimal_digit(whole[j - from]));
            return false;
        }
        let next: u32 = value * 10 + (b - DIGIT_ZERO) as u32;
        proof {
            let longer = text.subrange(from as int, j + 1);
            assert(longer.drop_last() =~= text.subrange(from as int, j as int));
            assert(longer.last() == text[j as int]);
            assert(digit_value(text[j as int]) == b - DIGIT_ZERO);
            assert(numeral_value(longer) == next);
            assert(whole.subrange(0, j + 1 - from) =~= longer);
            lemma_numeral_prefix_is_no_larger(whole, j + 1 - from);
        }
        if next > MAX_PARALLELISM {
            return false;
        }
        value = next;
        j += 1;
    }
    proof {
        is_ascii_chars_encode_utf8(text);
        if j < n {
            assert(text[j as int] as u8 == bytes[j as int]);
            assert(is_separator(text[j as int]));
        }
        assert(end == j);
    }
    true
}

/// Tells whether `stored` is a text that the Argon2 verifier is asked about.
pub fn can_be_checked(stored: &str) -> (ok: bool)
    ensures
        ok == is_checkable(stored@),
{
    if !stored.is_ascii() {
        return false;
    }
    let bytes = stored.as_bytes();
    let n = bytes.len();
    proof {
        is_ascii_chars_encode_utf8(stored@);
    }
    let ghost text = stored@;
    let mut i: usize = 0;
    while i < n
        invariant
            i <= n,
            n == text.len(),
            n == bytes@.len(),
            text == stored@,
            bytes@ == encode_utf8(text),
            is_ascii_chars(text),
            forall|k: int|
                0 <= k < i && #[trigger] starts_parallelism(text, k) ==> is_numeral_up_to(
                    parallelism_value(text, k),
                    MAX_PARALLELISM as nat,
                ),
        decreases n - i,
    {
        let begins = i == 0 || bytes[i - 1] == DOLLAR || bytes[i - 1] == COMMA;
        let named = i + 1 < n && bytes[i] == LETTER_P && bytes[i + 1] == EQUALS;
        proof {
            is_ascii_chars_encode_utf8(text);
            if i > 0 {
                assert(text[i - 1] as u8 == bytes[i - 1]);
            }
            assert(text[i as int] as u8 == bytes[i as int]);
            if i + 1 < n {
                assert(text[i + 1] as u8 == bytes[i + 1]);
            }
            assert((begins && named) == starts_parallelism(text, i as int));
        }
        if begins && named {
            if !value_in_range(stored, i + 2) {
                return false;
            }
        }
        i += 1;
    }
    true
}

/// A field ends at or behind the place where it is entered, and within the
/// text.
pub proof fn lemma_field_end_bounds(text: Seq<char>, from: int)
    requires
        0 <= from <= text.len(),
    ensures
        from <= field_end(text, from) <= text.len(),
    decreases text.len() - from,
{
    if from < text.len() && text[from] != '$' {
        lemma_field_end_bounds(text, from + 1);
    }
}

/// Behind the end of the text no further field starts within it.
pub proof fn lemma_no_field_behind_the_text(text: Seq<char>, j: nat, k: nat)
    requires
        j <= k,
        field_start(text, j) > text.len(),
    ensures
        field_start(text, k) > text.len(),
    decreases k,
{
    if j < k {
        lemma_no_field_behind_the_text(text, j, (k - 1) as nat);
    }
}

/// Finds where the field of `stored` that `from` stands in ends.
fn field_end_at(stored: &str, from: usize) -> (end: usize)
    requires
        is_ascii_chars(stored@),
        from <= stored@.len(),
    ensures
        end == field_end(stored@, from as int),
        from <= end <= stored@.len(),
{
    let bytes = stored.as_bytes();
    let n = bytes.len();
    proof {
        is_ascii_chars_encode_utf8(stored@);
    }
    let ghost text = stored@;
    let mut j: usize = from;
    while j < n && bytes[j] != DOLLAR
        invariant
            from <= j <= n,
            n == text.len(),
            n == bytes@.len(),
            text == stored@,
            bytes@ == encode_utf8(text),
            is_ascii_chars(text),
            field_end(text, from as int) == field_end(text, j as int),
        decreases n - j,
    {
        proof {
            is_ascii_chars_encode_utf8(text);
            assert(text[j as int] as u8 == bytes[j as int]);
        }
        j += 1;
    }
    proof {
        is_ascii_chars_encode_utf8(text);
        if j < n {
            assert(text[j as int] as u8 == bytes[j as int]);
        }
    }
    j
}

/// The `i`-th group of six bits of a salt.
fn sextet_of(salt: &[u8; SALT_LEN], i: usize) -> (value: u8)
    requires
        i < base64_len(SALT_LEN as nat),
    ensures
        value == sextet(salt@, i as int),
        value < 64,
{
    let first: usize = 3 * (i / 4);
    let second: u8 = if first + 1 < SALT_LEN {
        salt[first + 1]
    } else {
        0
    };
    let third: u8 = if first + 2 < SALT_LEN {
        salt[first + 2]
    } else {
        0
    };
    if i % 4 == 0 {
        salt[first] / 4
    } else if i % 4 == 1 {
        (salt[first] % 4) * 16 + second / 16
    } else if i % 4 == 2 {
        (second % 16) * 4 + third / 64
    } else {
        third % 64
    }
}

/// The ASCII code of the Base64 character for a six-bit value.
fn base64_code_of(value: u8) -> (code: u8)
    requires
        value < 64,
    ensures
        code == base64_code(value as nat),
{
    if value < 26 {
        65 + value
    } else if value < 52 {
        71 + value
    } else if value < 62 {
        value - 4
    } else if value == 62 {
        43
    } else {
        47
    }
}

/// Tells whether `stored` is ASCII throughout and names `salt`, in Base64,
/// in its salt field.
pub fn has_salt(stored: &str, salt: &[u8; SALT_LEN]) -> (ok: bool)
    ensures
        ok == carries_salt(stored@, salt@),
{
    if !stored.is_ascii() {
        return false;
    }
    let bytes = stored.as_bytes();
    let n = bytes.len();
    proof {
        is_ascii_chars_encode_utf8(stored@);
    }
    let ghost text = stored@;
    let mut start: usize = 0;
    let mut k: usize = 0;
    while k < SALT_FIELD
        invariant
            k <= SALT_FIELD,
            start <= n,
            n == text.len(),
            text == stored@,
            is_ascii_chars(text),
            start == field_start(text, k as nat),
        decreases SALT_FIELD - k,
    {
        let end = field_end_at(stored, start);
        if end >= n {
            proof {
                assert(field_start(text, (k + 1) as nat) == end + 1);
                lemma_no_field_behind_the_text(text, (k + 1) as nat, SALT_FIELD as nat);
                assert(field(text, SALT_FIELD as nat) =~= Seq::<char>::empty());
            }
            return false;
        }
        start = end + 1;
        k += 1;
    }
    let end = field_end_at(stored, start);
    let ghost found = field(text, SALT_FIELD as nat);
    assert(found == text.subrange(start as int, end as int));
    if end - start != SALT_TEXT_LEN {
        return false;
    }
    let mut i: usize = 0;
    while i < SALT_TEXT_LEN
        invariant
            i <= SALT_TEXT_LEN,
            start + SALT_TEXT_LEN == end,
            end <= n,
            n == text.len(),
            n == bytes@.len(),
            text == stored@,
            bytes@ == encode_utf8(text),
            is_ascii_chars(text),
            found == text.subrange(start as int, end as int),
            found == field(text, SALT_FIELD as nat),
            forall|m: int|
                0 <= m < i ==> (#[trigger] found[m]) as int == base64_code(sextet(salt@, m)),
        decreases SALT_TEXT_LEN - i,
    {
        let code = base64_code_of(sextet_of(salt, i));
        proof {
            is_ascii_chars_encode_utf8(text);
            assert(text[start + i] as u8 == bytes[start + i]);
            assert(found[i as int] == text[start + i]);
        }
        if bytes[start + i] != code {
            assert(found[i as int] as int != base64_code(sextet(salt@, i as int)));
            return false;
        }
        i += 1;
    }
    true
}

} // verus!
