//! Hexadecimal text of byte strings, through the `hex` crate.

use vstd::prelude::*;

verus! {

/// The lower-case hex digit of a value below 16.
pub open spec fn hex_digit(v: int) -> char {
    if v < 10 {
        (v + 48) as char
    } else {
        (v + 87) as char
    }
}

/// The value of a hex digit (either case), if `c` is one.
pub open spec fn hex_value(c: char) -> Option<int> {
    let u = c as u32;
    if 48 <= u && u <= 57 {
        Some(u - 48)
    } else if 97 <= u && u <= 102 {
        Some(u - 87)
    } else if 65 <= u && u <= 70 {
        Some(u - 55)
    } else {
        None
    }
}

/// Two lower-case hex digits per byte, high nibble first.
pub open spec fn hex_encode_spec(b: Seq<u8>) -> Seq<char>
    decreases b.len(),
{
    if b.len() == 0 {
        Seq::empty()
    } else {
        hex_encode_spec(b.drop_last()) + seq![
            hex_digit(b.last() as int / 16),
            hex_digit(b.last() as int % 16),
        ]
    }
}

/// The bytes a hex text stands for: `None` when its length is odd or when
/// one of its characters is no hex digit.
pub open spec fn hex_decode_spec(s: Seq<char>) -> Option<Seq<u8>>
    decreases s.len(),
{
    if s.len() % 2 != 0 {
        None
    } else if s.len() == 0 {
        Some(Seq::empty())
    } else {
        let hi = hex_value(s[s.len() - 2]);
        let lo = hex_value(s[s.len() - 1]);
        match (hex_decode_spec(s.subrange(0, s.len() - 2)), hi, lo) {
            (Some(p), Some(h), Some(l)) => Some(p.push((h * 16 + l) as u8)),
            _ => None,
        }
    }
}

proof fn lemma_hex_digit_value(v: int)
    requires
        0 <= v < 16,
    ensures
        hex_value(hex_digit(v)) == Some(v),
{
}

pub proof fn lemma_hex_encode_len(b: Seq<u8>)
    ensures
        hex_encode_spec(b).len() == 2 * b.len(),
    decreases b.len(),
{
    if b.len() > 0 {
        lemma_hex_encode_len(b.drop_last());
    }
}

/// Decoding the hex text of a byte string gives the byte string back.
pub proof fn lemma_hex_round_trip(b: Seq<u8>)
    ensures
        hex_decode_spec(hex_encode_spec(b)) == Some(b),
    decreases b.len(),
{
    if b.len() > 0 {
        let prev = b.drop_last();
        let s = hex_encode_spec(b);
        lemma_hex_round_trip(prev);
        lemma_hex_encode_len(prev);
        lemma_hex_encode_len(b);
        let x = b.last() as int;
        lemma_hex_digit_value(x / 16);
        lemma_hex_digit_value(x % 16);
        assert(s.subrange(0, s.len() - 2) =~= hex_encode_spec(prev));
        assert(s[s.len() - 2] == hex_digit(x / 16));
        assert(s[s.len() - 1] == hex_digit(x % 16));
        assert(((x / 16) * 16 + x % 16) as u8 == b.last()) by (nonlinear_arith)
            requires
                x == b.last() as int,
        ;
        assert(prev.push(b.last()) =~= b);
    }
}

/// `hex::encode`: the lower-case hex text of the bytes.
#[verifier::external_body]
pub(crate) fn hex_encode(data: &[u8]) -> (r: String)
    ensures
        r@ == hex_encode_spec(data@),
{
    hex::encode(data)
}

/// `hex::decode`: the bytes of a hex text (upper or lower case), or the
/// crate's error, rendered as text, when the length is odd or a character is
/// no hex digit. The error text itself is left unsaid.
#[verifier::external_body]
pub(crate) fn hex_decode(text: &str) -> (r: Result<Vec<u8>, String>)
    ensures
        match r {
            Ok(b) => hex_decode_spec(text@) == Some(b@),
            Err(_) => hex_decode_spec(text@) is None,
        },
{
    hex::decode(text).map_err(|e| e.to_string())
}

} // verus!
