//! Bytes as text.
use vstd::prelude::*;
use crate::text::hex_digit;

verus! {

/// The bytes that `base64`'s standard engine decodes a text to, or `None`
/// where it refuses it.
pub uninterp spec fn base64_bytes(text: Seq<char>) -> Option<Seq<u8>>;

/// The text that `base64`'s URL-safe engine without padding writes for some
/// bytes.
pub uninterp spec fn base64_url_text(bytes: Seq<u8>) -> Seq<char>;

/// Calls `decode` of `base64::engine::general_purpose::STANDARD`, whose result
/// [`base64_bytes`] names.
#[verifier::external_body]
pub(crate) fn base64_decode(text: &str) -> (r: Option<Vec<u8>>)
    ensures
        match r {
            Some(bytes) => base64_bytes(text@) == Some(bytes@),
            None => base64_bytes(text@) is None,
        },
{
    base64::Engine::decode(&base64::engine::general_purpose::STANDARD, text).ok()
}

/// Whether a character is one of the URL-safe alphabet's.
pub open spec fn url_safe(c: char) -> bool {
    'A' <= c <= 'Z' || 'a' <= c <= 'z' || '0' <= c <= '9' || c == '-' || c == '_'
}

/// Calls `encode` of `base64::engine::general_purpose::URL_SAFE_NO_PAD`, whose
/// result [`base64_url_text`] names. It writes six bits to a character, in the
/// URL-safe alphabet.
#[verifier::external_body]
pub(crate) fn base64_url_encode(bytes: &[u8]) -> (r: String)
    ensures
        r@ == base64_url_text(bytes@),
        r@.len() == (4 * bytes@.len() + 2) / 3,
        forall|i: int| 0 <= i < r@.len() ==> url_safe(#[trigger] r@[i]),
{
    base64::Engine::encode(&base64::engine::general_purpose::URL_SAFE_NO_PAD, bytes)
}

/// The last `n` hexadecimal digits of a number, leading zeros and all.
pub open spec fn hex_digits(value: nat, n: nat) -> Seq<char>
    decreases n,
{
    if n == 0 {
        Seq::empty()
    } else {
        hex_digits(value / 16, (n - 1) as nat).push(hex_digit(value as int % 16))
    }
}

/// An id in its usual form: lower-case digits in groups of 8, 4, 4, 4 and 12.
pub open spec fn hyphenated(id: u128) -> Seq<char> {
    let digits = hex_digits(id as nat, 32);
    digits.subrange(0, 8) + "-"@ + digits.subrange(8, 12) + "-"@ + digits.subrange(12, 16) + "-"@
        + digits.subrange(16, 20) + "-"@ + digits.subrange(20, 32)
}

/// Calls `uuid::Uuid::to_string`, which writes an id in its hyphenated form.
#[verifier::external_body]
pub(crate) fn uuid_text(id: u128) -> (r: String)
    ensures
        r@ == hyphenated(id),
{
    uuid::Uuid::from_u128(id).to_string()
}

/// Calls `uuid::Uuid::simple`, which writes an id as its 32 digits.
#[verifier::external_body]
pub(crate) fn uuid_digits(id: u128) -> (r: String)
    ensures
        r@ == hex_digits(id as nat, 32),
{
    uuid::Uuid::from_u128(id).simple().to_string()
}

/// Whether an id is marked as one of version 7: the version's four bits, and
/// the two of the variant.
pub open spec fn is_version_7(id: u128) -> bool {
    (id >> 76u128) & 0xf == 7 && (id >> 62u128) & 0x3 == 2
}

/// Calls `uuid::Uuid::now_v7`. The id depends on the time and on chance; only
/// its version and its variant are stated.
#[verifier::external_body]
fn now_v7() -> (r: u128)
    ensures
        is_version_7(r),
{
    uuid::Uuid::now_v7().as_u128()
}

/// An id for a new row.
pub fn fresh_id() -> (r: u128)
    ensures
        is_version_7(r),
{
    now_v7()
}

/// The number that some hexadecimal digits stand for.
pub open spec fn hex_number(digits: Seq<char>) -> nat
    decreases digits.len(),
{
    if digits.len() == 0 {
        0
    } else {
        let c = digits.last();
        let last = if '0' <= c <= '9' {
            c as u32 - '0' as u32
        } else {
            c as u32 - 'a' as u32 + 10
        };
        16 * hex_number(digits.drop_last()) + last as nat
    }
}

proof fn lemma_hex_number(value: nat, n: nat)
    requires
        value < power_of_16(n),
    ensures
        hex_digits(value, n).len() == n,
        hex_number(hex_digits(value, n)) == value,
    decreases n,
{
    if n > 0 {
        let fewer = (n - 1) as nat;
        assert(value / 16 < power_of_16(fewer));
        lemma_hex_number(value / 16, fewer);
        let digits = hex_digits(value, n);
        assert(digits.drop_last() =~= hex_digits(value / 16, fewer));
        let d = value as int % 16;
        assert(digits.last() == hex_digit(d));
    }
}

/// Sixteen to a power.
pub open spec fn power_of_16(n: nat) -> nat
    decreases n,
{
    if n == 0 {
        1
    } else {
        16 * power_of_16((n - 1) as nat)
    }
}

/// The 32 digits of an id are the id: read as a number they give it back.
pub proof fn an_id_is_read_back_from_its_digits(id: u128)
    ensures
        hex_digits(id as nat, 32).len() == 32,
        hex_number(hex_digits(id as nat, 32)) == id,
{
    reveal_with_fuel(power_of_16, 33);
    lemma_hex_number(id as nat, 32);
}

/// An id in its usual form has its digits in order, with a hyphen behind the
/// eighth, the twelfth, the sixteenth and the twentieth.
pub proof fn an_id_is_written_in_groups(id: u128)
    ensures
        ({
            let digits = hex_digits(id as nat, 32);
            let text = hyphenated(id);
            &&& text.len() == 36
            &&& text[8] == '-' && text[13] == '-' && text[18] == '-' && text[23] == '-'
            &&& text.subrange(0, 8) + text.subrange(9, 13) + text.subrange(14, 18) + text.subrange(
                19,
                23,
            ) + text.subrange(24, 36) == digits
        }),
{
    an_id_is_read_back_from_its_digits(id);
    reveal_strlit("-");
    let digits = hex_digits(id as nat, 32);
    let text = hyphenated(id);
    assert(text.subrange(0, 8) + text.subrange(9, 13) + text.subrange(14, 18) + text.subrange(
        19,
        23,
    ) + text.subrange(24, 36) =~= digits);
}

} // verus!
