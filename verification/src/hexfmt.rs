//! Hex rendering of proof bytes, for displaying a proof artifact.

use vstd::prelude::*;

use crate::lifecycle::Snark;

verus! {

/// The lowercase hex digit of a nibble.
pub open spec fn hex_char_of(n: u8) -> char
    recommends
        n < 16,
{
    seq!['0', '1', '2', '3', '4', '5', '6', '7', '8', '9', 'a', 'b', 'c', 'd', 'e', 'f'][n as int]
}

/// The lowercase hex rendering of a byte string: two digits per byte, high
/// nibble first.
pub open spec fn spec_hex(b: Seq<u8>) -> Seq<char> {
    Seq::new(
        2 * b.len(),
        |i: int|
            if i % 2 == 0 {
                hex_char_of((b[i / 2] >> 4u8) & 0xf)
            } else {
                hex_char_of(b[i / 2] & 0xf)
            },
    )
}

/// Relies on `hex::encode`: each byte becomes its two lowercase hex digits,
/// high nibble first, in input order.
#[verifier::external_body]
fn hex_encode(b: &Vec<u8>) -> (r: String)
    ensures
        r@ == spec_hex(b@),
{
    hex::encode(b.as_slice())
}

/// The lowercase hex rendering of a proof's bytes.
pub fn proof_hex(s: &Snark) -> (r: String)
    ensures
        r@ == spec_hex(s.proof@),
{
    hex_encode(&s.proof)
}

} // verus!
