//! Base64 (standard alphabet, `=` padding): the text form in which an
//! encrypted record is stored.

use vstd::prelude::*;
use vstd::utf8::{encode_utf8, encode_utf8_decode_utf8, encode_utf8_valid_utf8, is_ascii_chars, is_ascii_chars_encode_utf8, valid_utf8, decode_utf8};
use crate::otp::lossy_text;

verus! {

/// The ASCII code of the base64 digit with value `v` (0 to 63):
/// `A`-`Z`, `a`-`z`, `0`-`9`, `+`, `/`.
pub open spec fn b64_symbol(v: int) -> u8 {
    if v < 26 {
        (65 + v) as u8
    } else if v < 52 {
        (71 + v) as u8
    } else if v < 62 {
        (v - 4) as u8
    } else if v == 62 {
        43
    } else {
        47
    }
}

/// The value of a base64 digit, or -1 for a byte that is none.
pub open spec fn b64_value(c: u8) -> int {
    if 65 <= c <= 90 {
        c - 65
    } else if 97 <= c <= 122 {
        c - 71
    } else if 48 <= c <= 57 {
        c + 4
    } else if c == 43 {
        62
    } else if c == 47 {
        63
    } else {
        -1
    }
}

/// The padding byte `=`.
pub open spec fn pad() -> u8 {
    61
}

/// The base64 digits of three bytes.
pub open spec fn b64_group(b0: int, b1: int, b2: int) -> Seq<u8> {
    seq![
        b64_symbol(b0 / 4),
        b64_symbol((b0 % 4) * 16 + b1 / 16),
        b64_symbol((b1 % 16) * 4 + b2 / 64),
        b64_symbol(b2 % 64),
    ]
}

/// The base64 encoding of some bytes, as ASCII codes: four digits for each
/// three bytes, the last group padded with `=`.
pub open spec fn b64_bytes(b: Seq<u8>) -> Seq<u8>
    decreases b.len(),
{
    if b.len() == 0 {
        seq![]
    } else if b.len() == 1 {
        seq![b64_symbol((b[0] as int) / 4), b64_symbol(((b[0] as int) % 4) * 16), pad(), pad()]
    } else if b.len() == 2 {
        seq![b64_symbol((b[0] as int) / 4), b64_symbol(((b[0] as int) % 4) * 16 + (b[1] as int) / 16), b64_symbol(((b[1] as int) % 16) * 4), pad()]
    } else {
        b64_group(b[0] as int, b[1] as int, b[2] as int) + b64_bytes(b.skip(3))
    }
}

/// The characters of ASCII codes.
pub open spec fn ascii_chars(b: Seq<u8>) -> Seq<char> {
    b.map_values(|x: u8| x as char)
}

/// The base64 text of some bytes.
pub open spec fn b64_text(b: Seq<u8>) -> Seq<char> {
    ascii_chars(b64_bytes(b))
}

/// The base64 text of some bytes without the `=` padding (as in PHC strings).
pub open spec fn b64_unpadded_text(b: Seq<u8>) -> Seq<char> {
    b64_text(b).take(((4 * b.len() + 2) / 3) as int)
}

/// The bytes of a base64 text given by its (UTF-8) bytes, if it is one: a
/// whole number of groups of four digits, the last of which may end in one
/// or two `=`.
pub open spec fn b64_decode_spec(t: Seq<u8>) -> Option<Seq<u8>>
    decreases t.len(),
{
    if t.len() == 0 {
        Some(seq![])
    } else if t.len() < 4 {
        None
    } else {
        let v0 = b64_value(t[0]);
        let v1 = b64_value(t[1]);
        let v2 = b64_value(t[2]);
        let v3 = b64_value(t[3]);
        let c0 = (v0 * 4 + v1 / 16) as u8;
        let c1 = ((v1 % 16) * 16 + v2 / 4) as u8;
        let c2 = ((v2 % 4) * 64 + v3) as u8;
        if v0 < 0 || v1 < 0 {
            None
        } else if t.len() == 4 && t[2] == pad() && t[3] == pad() {
            Some(seq![c0])
        } else if v2 < 0 {
            None
        } else if t.len() == 4 && t[3] == pad() {
            Some(seq![c0, c1])
        } else if v3 < 0 {
            None
        } else {
            match b64_decode_spec(t.skip(4)) {
                Some(r) => Some(seq![c0, c1, c2] + r),
                None => None,
            }
        }
    }
}

proof fn lemma_symbol_value(v: int)
    requires
        0 <= v < 64,
    ensures
        b64_value(b64_symbol(v)) == v,
        b64_symbol(v) != pad(),
        b64_symbol(v) < 128,
{
}

proof fn lemma_group_decodes(b0: int, b1: int, b2: int)
    requires
        0 <= b0 < 256,
        0 <= b1 < 256,
        0 <= b2 < 256,
    ensures
        b64_value(b64_group(b0, b1, b2)[0]) == b0 / 4,
        b64_value(b64_group(b0, b1, b2)[1]) == (b0 % 4) * 16 + b1 / 16,
        b64_value(b64_group(b0, b1, b2)[2]) == (b1 % 16) * 4 + b2 / 64,
        b64_value(b64_group(b0, b1, b2)[3]) == b2 % 64,
        ((b0 / 4) * 4 + ((b0 % 4) * 16 + b1 / 16) / 16) as u8 == b0,
        ((((b0 % 4) * 16 + b1 / 16) % 16) * 16 + ((b1 % 16) * 4 + b2 / 64) / 4) as u8 == b1,
        ((((b1 % 16) * 4 + b2 / 64) % 4) * 64 + b2 % 64) as u8 == b2,
{
    lemma_split_bytes(b0, b1, b2);
    lemma_symbol_value(b0 / 4);
    lemma_symbol_value((b0 % 4) * 16 + b1 / 16);
    lemma_symbol_value((b1 % 16) * 4 + b2 / 64);
    lemma_symbol_value(b2 % 64);
    lemma_split_bytes(b0, b1, b2);
}

proof fn lemma_split_bytes(b0: int, b1: int, b2: int)
    by (nonlinear_arith)
    requires
        0 <= b0 < 256,
        0 <= b1 < 256,
        0 <= b2 < 256,
    ensures
        (b0 / 4) * 4 + ((b0 % 4) * 16 + b1 / 16) / 16 == b0,
        (((b0 % 4) * 16 + b1 / 16) % 16) * 16 + ((b1 % 16) * 4 + b2 / 64) / 4 == b1,
        (((b1 % 16) * 4 + b2 / 64) % 4) * 64 + b2 % 64 == b2,
        (b0 / 4) * 4 + ((b0 % 4) * 16) / 16 == b0,
        (((b0 % 4) * 16 + b1 / 16) % 16) * 16 + ((b1 % 16) * 4) / 4 == b1,
        0 <= b0 / 4 < 64,
        0 <= (b0 % 4) * 16 + b1 / 16 < 64,
        0 <= (b1 % 16) * 4 + b2 / 64 < 64,
        0 <= b2 % 64 < 64,
        0 <= (b0 % 4) * 16 < 64,
        0 <= (b1 % 16) * 4 < 64,
{
}

/// Decoding the encoding of some bytes gives them back.
pub proof fn lemma_b64_round_trip(b: Seq<u8>)
    ensures
        b64_decode_spec(b64_bytes(b)) == Some(b),
        forall|i: int| 0 <= i < b64_bytes(b).len() ==> #[trigger] b64_bytes(b)[i] < 128,
    decreases b.len(),
{
    let t = b64_bytes(b);
    if b.len() == 0 {
    } else if b.len() == 1 {
        lemma_split_bytes(b[0] as int, 0, 0);
        lemma_symbol_value((b[0] as int) / 4);
        lemma_symbol_value(((b[0] as int) % 4) * 16);
        assert(seq![b[0]] =~= b);
    } else if b.len() == 2 {
        lemma_split_bytes(b[0] as int, b[1] as int, 0);
        lemma_symbol_value((b[0] as int) / 4);
        lemma_symbol_value(((b[0] as int) % 4) * 16 + (b[1] as int) / 16);
        lemma_symbol_value(((b[1] as int) % 16) * 4);
        assert(seq![b[0], b[1]] =~= b);
    } else {
        let g = b64_group(b[0] as int, b[1] as int, b[2] as int);
        let rest = b64_bytes(b.skip(3));
        lemma_b64_round_trip(b.skip(3));
        lemma_group_decodes(b[0] as int, b[1] as int, b[2] as int);
        lemma_split_bytes(b[0] as int, b[1] as int, b[2] as int);
        lemma_symbol_value((b[2] as int) % 64);
        lemma_symbol_value(((b[1] as int) % 16) * 4 + (b[2] as int) / 64);
        lemma_symbol_value(((b[0] as int) % 4) * 16 + (b[1] as int) / 16);
        lemma_symbol_value((b[0] as int) / 4);
        assert(t == g + rest);
        assert(t.skip(4) =~= rest);
        assert(t[0] == g[0] && t[1] == g[1] && t[2] == g[2] && t[3] == g[3]);
        if t.len() == 4 {
            assert(rest.len() == 0);
            assert(b.skip(3).len() == 0) by {
                if b.skip(3).len() > 0 {
                    assert(rest.len() >= 4);
                }
            }
        }
        assert(seq![b[0], b[1], b[2]] + b.skip(3) =~= b);
        assert forall|i: int| 0 <= i < t.len() implies #[trigger] t[i] < 128 by {
            if i >= 4 {
                assert(t[i] == rest[i - 4]);
            }
        }
    }
}

/// ASCII codes are the UTF-8 encoding of their characters.
pub proof fn lemma_ascii_text(b: Seq<u8>)
    requires
        forall|i: int| 0 <= i < b.len() ==> #[trigger] b[i] < 128,
    ensures
        encode_utf8(ascii_chars(b)) == b,
        valid_utf8(b),
        decode_utf8(b) == ascii_chars(b),
{
    let c = ascii_chars(b);
    assert(is_ascii_chars(c)) by {
        assert forall|i: int| 0 <= i < c.len() implies '\0' <= #[trigger] c[i] <= '\u{7f}' by {
            assert(c[i] == b[i] as char);
        }
    }
    is_ascii_chars_encode_utf8(c);
    assert forall|i: int| 0 <= i < c.len() implies encode_utf8(c)[i] == b[i] by {
        assert(c[i] == b[i] as char);
        assert(c[i] as u8 == encode_utf8(c)[i]);
    }
    assert(encode_utf8(c) =~= b);
    encode_utf8_valid_utf8(c);
    encode_utf8_decode_utf8(c);
}

/// The base64 text of some bytes.
pub fn b64_encode(data: &[u8]) -> (r: String)
    ensures
        r@ == b64_text(data@),
        encode_utf8(r@) == b64_bytes(data@),
{
    let n = data.len();
    let mut out: Vec<u8> = Vec::new();
    let mut i: usize = 0;
    assert(data@.skip(0) =~= data@);
    assert(out@ + b64_bytes(data@) =~= b64_bytes(data@));
    while n - i >= 3
        invariant
            n == data@.len(),
            i <= n,
            b64_bytes(data@) == out@ + b64_bytes(data@.skip(i as int)),
        decreases n - i,
    {
        let b0 = data[i];
        let b1 = data[i + 1];
        let b2 = data[i + 2];
        let ghost s = data@.skip(i as int);
        assert(s[0] == b0 && s[1] == b1 && s[2] == b2);
        assert(s.skip(3) =~= data@.skip(i + 3));
        out.push(symbol(b0 / 4));
        out.push(symbol((b0 % 4) * 16 + b1 / 16));
        out.push(symbol((b1 % 16) * 4 + b2 / 64));
        out.push(symbol(b2 % 64));
        assert(b64_bytes(s) == b64_group(b0 as int, b1 as int, b2 as int) + b64_bytes(data@.skip(i + 3)));
        i = i + 3;
    }
    let ghost s = data@.skip(i as int);
    if n - i == 1 {
        let b0 = data[i];
        assert(s[0] == b0);
        out.push(symbol(b0 / 4));
        out.push(symbol((b0 % 4) * 16));
        out.push(61);
        out.push(61);
    } else if n - i == 2 {
        let b0 = data[i];
        let b1 = data[i + 1];
        assert(s[0] == b0 && s[1] == b1);
        out.push(symbol(b0 / 4));
        out.push(symbol((b0 % 4) * 16 + b1 / 16));
        out.push(symbol((b1 % 16) * 4));
        out.push(61);
    }
    assert(out@ =~= b64_bytes(data@));
    proof {
        lemma_b64_round_trip(data@);
        lemma_ascii_text(out@);
    }
    lossy_text(out.as_slice())
}

fn symbol(v: u8) -> (c: u8)
    requires
        v < 64,
    ensures
        c == b64_symbol(v as int),
{
    if v < 26 {
        65 + v
    } else if v < 52 {
        71 + v
    } else if v < 62 {
        v - 4
    } else if v == 62 {
        43
    } else {
        47
    }
}

fn value(c: u8) -> (v: i16)
    ensures
        v == b64_value(c),
{
    if 65 <= c && c <= 90 {
        c as i16 - 65
    } else if 97 <= c && c <= 122 {
        c as i16 - 71
    } else if 48 <= c && c <= 57 {
        c as i16 + 4
    } else if c == 43 {
        62
    } else if c == 47 {
        63
    } else {
        -1
    }
}

/// The bytes of a base64 text, or none when it is no base64 text.
pub fn b64_decode(text: &str) -> (r: Option<Vec<u8>>)
    ensures
        match b64_decode_spec(encode_utf8(text@)) {
            Some(b) => r is Some && r->0@ == b,
            None => r is None,
        },
{
    let t = text.as_bytes();
    let ghost tb = encode_utf8(text@);
    assert(t@ == tb);
    let n = t.len();
    let mut out: Vec<u8> = Vec::new();
    let mut i: usize = 0;
    assert(tb.skip(0) =~= tb);
    proof {
        match b64_decode_spec(tb) {
            Some(r) => {
                assert(out@ + r =~= r);
            },
            None => {},
        }
    }
    while i < n
        invariant
            n == tb.len(),
            t@ == tb,
            tb == encode_utf8(text@),
            i <= n,
            b64_decode_spec(tb) == match b64_decode_spec(tb.skip(i as int)) {
                Some(r) => Some(out@ + r),
                None => None::<Seq<u8>>,
            },
        decreases n - i,
    {
        let ghost s = tb.skip(i as int);
        assert(s.len() == n - i);
        if n - i < 4 {
            assert(b64_decode_spec(s) is None);
            return None;
        }
        assert(s[0] == t[i as int] && s[1] == t[i + 1] && s[2] == t[i + 2] && s[3] == t[i + 3]);
        let v0 = value(t[i]);
        let v1 = value(t[i + 1]);
        let v2 = value(t[i + 2]);
        let v3 = value(t[i + 3]);
        if v0 < 0 || v1 < 0 {
            assert(b64_decode_spec(s) is None);
            return None;
        }
        let c0 = (v0 * 4 + v1 / 16) as u8;
        if n - i == 4 && t[i + 2] == 61 && t[i + 3] == 61 {
            out.push(c0);
            assert(out@ =~= out@.drop_last() + seq![c0]);
            return Some(out);
        }
        if v2 < 0 {
            return None;
        }
        let c1 = ((v1 % 16) * 16 + v2 / 4) as u8;
        if n - i == 4 && t[i + 3] == 61 {
            let ghost before = out@;
            out.push(c0);
            out.push(c1);
            assert(out@ =~= before + seq![c0, c1]);
            return Some(out);
        }
        if v3 < 0 {
            return None;
        }
        let c2 = ((v2 % 4) * 64 + v3) as u8;
        let ghost before = out@;
        out.push(c0);
        out.push(c1);
        out.push(c2);
        assert(s.skip(4) =~= tb.skip(i + 4));
        proof {
            match b64_decode_spec(tb.skip(i + 4)) {
                Some(r) => {
                    assert(before + (seq![c0, c1, c2] + r) =~= out@ + r);
                },
                None => {},
            }
        }
        i = i + 4;
    }
    assert(tb.skip(n as int).len() == 0);
    assert(out@ + seq![] =~= out@);
    Some(out)
}

} // verus!
