//! Lowercase hexadecimal rendering of byte strings.
//!
//! The digest sidecars hold the lowercase hex of a SHA-256 value; the
//! encoding itself is pinned down by `spec_hex_lower` and performed by
//! `data-encoding`.

use vstd::prelude::*;

verus! {

/// The lowercase hex digit for `d` (meaningful for `0 <= d <= 15`).
pub open spec fn spec_hex_digit(d: int) -> u8 {
    if d < 10 {
        (0x30 + d) as u8
    } else {
        (0x61 + (d - 10)) as u8
    }
}

/// Lowercase hex rendering: two digits per byte, high nibble first.
pub open spec fn spec_hex_lower(s: Seq<u8>) -> Seq<u8>
    decreases s.len(),
{
    if s.len() == 0 {
        Seq::empty()
    } else {
        spec_hex_lower(s.drop_last())
            + seq![spec_hex_digit(s.last() as int / 16), spec_hex_digit(s.last() as int % 16)]
    }
}

/// The lowercase hex digit for `d`, executable form.
pub fn hex_digit(d: u8) -> (r: u8)
    requires
        d < 16,
    ensures
        r == spec_hex_digit(d as int),
{
    if d < 10 {
        0x30 + d
    } else {
        0x61 + (d - 10)
    }
}

/// Relies on `data_encoding::HEXLOWER.encode`: each input byte becomes its
/// two lowercase hex digits, high nibble first, in input order.
#[verifier::external_body]
pub fn hex_lower(b: &[u8]) -> (r: Vec<u8>)
    ensures
        r@ == spec_hex_lower(b@),
{
    data_encoding::HEXLOWER.encode(b).into_bytes()
}

/// The value of a lowercase hex digit byte, if it is one.
pub fn hex_val(c: u8) -> (r: Option<u8>)
    ensures
        r is Some ==> r->0 < 16 && spec_hex_digit(r->0 as int) == c,
        r is None ==> forall|d: int| 0 <= d < 16 ==> spec_hex_digit(d) != c,
{
    if 0x30 <= c && c <= 0x39 {
        Some(c - 0x30)
    } else if 0x61 <= c && c <= 0x66 {
        Some(c - 0x61 + 10)
    } else {
        None
    }
}

/// Hex doubles the length.
pub proof fn lemma_hex_lower_len(s: Seq<u8>)
    ensures
        spec_hex_lower(s).len() == 2 * s.len(),
    decreases s.len(),
{
    if s.len() > 0 {
        lemma_hex_lower_len(s.drop_last());
    }
}

} // verus!
