//! Lowercase hex encoding of byte strings, used for the on-wire job
//! payload: the job id is the hex of the little-endian block height, the
//! header root and hashed leaves are hex of their byte serialisations.

use vstd::prelude::*;

verus! {

/// The lowercase hex digit for a nibble.
pub open spec fn hex_digit(n: int) -> char {
    if n == 0 { '0' }
    else if n == 1 { '1' }
    else if n == 2 { '2' }
    else if n == 3 { '3' }
    else if n == 4 { '4' }
    else if n == 5 { '5' }
    else if n == 6 { '6' }
    else if n == 7 { '7' }
    else if n == 8 { '8' }
    else if n == 9 { '9' }
    else if n == 10 { 'a' }
    else if n == 11 { 'b' }
    else if n == 12 { 'c' }
    else if n == 13 { 'd' }
    else if n == 14 { 'e' }
    else { 'f' }
}

/// Two lowercase digits for a byte, most significant nibble first.
pub open spec fn hex_of_byte(b: u8) -> Seq<char> {
    seq![hex_digit(b as int / 16), hex_digit(b as int % 16)]
}

/// Lowercase hex of a byte string, two digits per byte.
pub open spec fn hex_of(s: Seq<u8>) -> Seq<char>
    decreases s.len(),
{
    if s.len() == 0 {
        Seq::empty()
    } else {
        hex_of_byte(s[0]) + hex_of(s.drop_first())
    }
}

/// Relies on hex::encode: each input byte becomes exactly two lowercase
/// hex digits, most significant nibble first, in input order.
#[verifier::external_body]
pub fn hex_encode(bytes: &Vec<u8>) -> (r: String)
    ensures
        r@ == hex_of(bytes@),
{
    hex::encode(bytes.as_slice())
}

/// The four little-endian bytes of a block height.
pub open spec fn le4_spec(h: u32) -> Seq<u8> {
    seq![
        (h as int % 256) as u8,
        ((h as int / 256) % 256) as u8,
        ((h as int / 65536) % 256) as u8,
        ((h as int / 16777216) % 256) as u8,
    ]
}

pub fn height_le_bytes(h: u32) -> (r: Vec<u8>)
    ensures
        r@ == le4_spec(h),
{
    let mut v: Vec<u8> = Vec::new();
    v.push((h % 256) as u8);
    v.push(((h / 256) % 256) as u8);
    v.push(((h / 65536) % 256) as u8);
    v.push(((h / 16777216) % 256) as u8);
    proof {
        assert(v@ =~= le4_spec(h));
    }
    v
}

}
