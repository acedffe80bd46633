//! Percent-encoding of strings (RFC 3986 unreserved set, uppercase hex
//! escapes), used by the `Content-Disposition` codec for `filename*` values
//! and by the SigV4 canonical query string.
//!
//! Encoding works on the UTF-8 bytes of the input; decoding turns `%XX`
//! escapes back into bytes and re-reads them as UTF-8, failing when the bytes
//! are not valid UTF-8. A malformed escape is kept as literal text.

use vstd::prelude::*;

verus! {

use vstd::utf8::{encode_utf8, decode_utf8, valid_utf8};
use crate::text::{push_char, string_from_utf8};
use vstd::string::StrSliceExecFns;
use vstd::string::StringSliceAdditionalSpecFns;

// ---------------------------------------------------------------------------
// Byte-level specification
// ---------------------------------------------------------------------------

/// Bytes that percent-encoding leaves as they are: ASCII letters and digits
/// and `- . _ ~`.
pub open spec fn is_pct_unreserved(b: u8) -> bool {
    (0x41 <= b && b <= 0x5a) || (0x61 <= b && b <= 0x7a) || (0x30 <= b && b <= 0x39) || b == 0x2d
        || b == 0x2e || b == 0x5f || b == 0x7e
}

pub open spec fn spec_hex_upper_char(n: u8) -> char {
    if n == 0 {
        '0'
    } else if n == 1 {
        '1'
    } else if n == 2 {
        '2'
    } else if n == 3 {
        '3'
    } else if n == 4 {
        '4'
    } else if n == 5 {
        '5'
    } else if n == 6 {
        '6'
    } else if n == 7 {
        '7'
    } else if n == 8 {
        '8'
    } else if n == 9 {
        '9'
    } else if n == 10 {
        'A'
    } else if n == 11 {
        'B'
    } else if n == 12 {
        'C'
    } else if n == 13 {
        'D'
    } else if n == 14 {
        'E'
    } else {
        'F'
    }
}

/// Value of an ASCII hex digit byte, upper or lower case.
pub open spec fn hex_val(b: u8) -> Option<u8> {
    if 0x30 <= b && b <= 0x39 {
        Some((b - 0x30) as u8)
    } else if 0x41 <= b && b <= 0x46 {
        Some((b - 0x37) as u8)
    } else if 0x61 <= b && b <= 0x66 {
        Some((b - 0x57) as u8)
    } else {
        None
    }
}

/// The encoding of one byte: itself when unreserved, else `%XX`.
pub open spec fn pct_encode_byte(b: u8) -> Seq<u8> {
    if is_pct_unreserved(b) {
        seq![b]
    } else {
        seq![0x25u8, spec_hex_upper_char((b / 16) as u8) as u8, spec_hex_upper_char(
            (b % 16) as u8,
        ) as u8]
    }
}

pub open spec fn pct_encode_bytes(data: Seq<u8>) -> Seq<u8>
    decreases data.len(),
{
    if data.len() == 0 {
        Seq::<u8>::empty()
    } else {
        pct_encode_byte(data.first()) + pct_encode_bytes(data.drop_first())
    }
}

/// Decoding: a `%` followed by two hex digits becomes that byte; anything
/// else, a malformed escape included, is copied unchanged.
pub open spec fn pct_decode_bytes(data: Seq<u8>) -> Seq<u8>
    decreases data.len(),
{
    if data.len() == 0 {
        Seq::<u8>::empty()
    } else if data.first() == 0x25 && data.len() >= 3 && hex_val(data[1]) is Some && hex_val(
        data[2],
    ) is Some {
        seq![(hex_val(data[1])->0 * 16 + hex_val(data[2])->0) as u8] + pct_decode_bytes(
            data.skip(3),
        )
    } else {
        seq![data.first()] + pct_decode_bytes(data.skip(1))
    }
}

/// Whether some `%XX` escape occurs in the data, which is exactly when
/// decoding changes it.
pub open spec fn has_pct_escape(data: Seq<u8>) -> bool {
    exists|i: int|
        0 <= i && i + 3 <= data.len() && #[trigger] data[i] == 0x25 && hex_val(data[i + 1]) is Some
            && hex_val(data[i + 2]) is Some
}

// ---------------------------------------------------------------------------
// String-level specification
// ---------------------------------------------------------------------------

pub open spec fn ascii_chars_of(data: Seq<u8>) -> Seq<char> {
    data.map_values(|b: u8| b as char)
}

/// What `pct_encode` returns: the escaped form of the UTF-8 bytes of `s`.
pub open spec fn spec_pct_encode(s: Seq<char>) -> Seq<char> {
    ascii_chars_of(pct_encode_bytes(encode_utf8(s)))
}

/// What `pct_decode` returns: the unescaped bytes re-read as UTF-8, or
/// nothing when they are not valid UTF-8.
pub open spec fn spec_pct_decode(s: Seq<char>) -> Option<Seq<char>> {
    let b = pct_decode_bytes(encode_utf8(s));
    if valid_utf8(b) {
        Some(decode_utf8(b))
    } else {
        None
    }
}

// ---------------------------------------------------------------------------
// Executable encoder and decoder
// ---------------------------------------------------------------------------

fn hex_upper_char(n: u8) -> (c: char)
    requires
        n < 16,
    ensures
        c == spec_hex_upper_char(n),
{
    if n == 0 {
        '0'
    } else if n == 1 {
        '1'
    } else if n == 2 {
        '2'
    } else if n == 3 {
        '3'
    } else if n == 4 {
        '4'
    } else if n == 5 {
        '5'
    } else if n == 6 {
        '6'
    } else if n == 7 {
        '7'
    } else if n == 8 {
        '8'
    } else if n == 9 {
        '9'
    } else if n == 10 {
        'A'
    } else if n == 11 {
        'B'
    } else if n == 12 {
        'C'
    } else if n == 13 {
        'D'
    } else if n == 14 {
        'E'
    } else {
        'F'
    }
}

fn byte_is_unreserved(b: u8) -> (r: bool)
    ensures
        r == is_pct_unreserved(b),
{
    (0x41 <= b && b <= 0x5a) || (0x61 <= b && b <= 0x7a) || (0x30 <= b && b <= 0x39) || b == 0x2d
        || b == 0x2e || b == 0x5f || b == 0x7e
}

fn hex_value(b: u8) -> (r: Option<u8>)
    ensures
        r == hex_val(b),
{
    if 0x30 <= b && b <= 0x39 {
        Some(b - 0x30)
    } else if 0x41 <= b && b <= 0x46 {
        Some(b - 0x37)
    } else if 0x61 <= b && b <= 0x66 {
        Some(b - 0x57)
    } else {
        None
    }
}

/// Percent-encode a string.
pub fn pct_encode(s: &str) -> (r: String)
    ensures
        r@ == spec_pct_encode(s@),
{
    let bytes = s.as_bytes_vec();
    let n = bytes.len();
    let mut out = String::new();
    assert(bytes@.skip(0) == bytes@);
    for i in 0..n
        invariant
            n == bytes@.len(),
            bytes@ == encode_utf8(s@),
            ascii_chars_of(pct_encode_bytes(bytes@)) =~= out@ + ascii_chars_of(
                pct_encode_bytes(bytes@.skip(i as int)),
            ),
    {
        let ghost mid = bytes@.skip(i as int);
        let b = bytes[i];
        proof {
            assert(mid.first() == bytes@[i as int]);
            assert(mid.drop_first() =~= bytes@.skip(i + 1));
            assert(ascii_chars_of(pct_encode_byte(b) + pct_encode_bytes(bytes@.skip(i + 1)))
                =~= ascii_chars_of(pct_encode_byte(b)) + ascii_chars_of(
                pct_encode_bytes(bytes@.skip(i + 1)),
            ));
        }
        if byte_is_unreserved(b) {
            push_char(&mut out, b as char);
            assert(ascii_chars_of(pct_encode_byte(b)) =~= seq![b as char]);
        } else {
            push_char(&mut out, '%');
            push_char(&mut out, hex_upper_char(b / 16));
            push_char(&mut out, hex_upper_char(b % 16));
            proof {
                assert(('%' as u8) as char == '%');
                assert(spec_hex_upper_char((b / 16) as u8) as u8 as char == spec_hex_upper_char(
                    (b / 16) as u8,
                ));
                assert(spec_hex_upper_char((b % 16) as u8) as u8 as char == spec_hex_upper_char(
                    (b % 16) as u8,
                ));
                assert(ascii_chars_of(pct_encode_byte(b)) =~= seq!['%', spec_hex_upper_char(
                    (b / 16) as u8,
                ), spec_hex_upper_char((b % 16) as u8)]);
            }
        }
    }
    assert(bytes@.skip(n as int) =~= Seq::<u8>::empty());
    assert(ascii_chars_of(pct_encode_bytes(bytes@.skip(n as int))) =~= Seq::<char>::empty());
    assert(out@ =~= ascii_chars_of(pct_encode_bytes(bytes@)));
    out
}

/// Percent-decode a string; `None` when the unescaped bytes are not UTF-8.
pub fn pct_decode(s: &str) -> (r: Option<String>)
    ensures
        r matches Some(d) ==> spec_pct_decode(s@) == Some(d@),
        r is None ==> spec_pct_decode(s@) is None,
{
    let bytes = s.as_bytes_vec();
    let n = bytes.len();
    let mut out: Vec<u8> = Vec::new();
    let mut i: usize = 0;
    assert(bytes@.skip(0) == bytes@);
    while i < n
        invariant
            n == bytes@.len(),
            i <= n,
            bytes@ == encode_utf8(s@),
            pct_decode_bytes(bytes@) =~= out@ + pct_decode_bytes(bytes@.skip(i as int)),
        decreases n - i,
    {
        let ghost mid = bytes@.skip(i as int);
        let b = bytes[i];
        proof {
            assert(mid.first() == bytes@[i as int]);
            assert(mid.drop_first() =~= bytes@.skip(i + 1));
        }
        if b == 0x25 && n - i >= 3 {
            let h1 = hex_value(bytes[i + 1]);
            let h2 = hex_value(bytes[i + 2]);
            proof {
                assert(mid[1] == bytes@[i + 1]);
                assert(mid[2] == bytes@[i + 2]);
                assert(mid.skip(3) =~= bytes@.skip(i + 3));
            }
            match (h1, h2) {
                (Some(v1), Some(v2)) => {
                    out.push(v1 * 16 + v2);
                    i = i + 3;
                },
                _ => {
                    out.push(b);
                    i = i + 1;
                },
            }
        } else {
            out.push(b);
            i = i + 1;
        }
    }
    assert(bytes@.skip(n as int) =~= Seq::<u8>::empty());
    assert(out@ =~= pct_decode_bytes(bytes@));
    let r = string_from_utf8(out);
    match &r {
        Some(d) => {
            proof {
                vstd::utf8::encode_utf8_decode_utf8(d@);
            }
        },
        None => {},
    }
    r
}

// ---------------------------------------------------------------------------
// Laws
// ---------------------------------------------------------------------------

proof fn lemma_encode_bytes_ascii(data: Seq<u8>)
    ensures
        forall|i: int| 0 <= i < pct_encode_bytes(data).len() ==> pct_encode_bytes(data)[i] < 0x80,
    decreases data.len(),
{
    if data.len() > 0 {
        lemma_encode_bytes_ascii(data.drop_first());
        assert forall|i: int| 0 <= i < pct_encode_bytes(data).len() implies pct_encode_bytes(
            data,
        )[i] < 0x80 by {
            let head = pct_encode_byte(data.first());
            if i < head.len() {
                assert(pct_encode_bytes(data)[i] == head[i]);
            } else {
                assert(pct_encode_bytes(data)[i] == pct_encode_bytes(data.drop_first())[i
                    - head.len()]);
            }
        }
    }
}

proof fn lemma_decode_of_encode_bytes(data: Seq<u8>)
    ensures
        pct_decode_bytes(pct_encode_bytes(data)) == data,
    decreases data.len(),
{
    if data.len() == 0 {
        assert(pct_decode_bytes(pct_encode_bytes(data)) =~= data);
    } else {
        lemma_decode_of_encode_bytes(data.drop_first());
        let b = data.first();
        let head = pct_encode_byte(b);
        let enc = pct_encode_bytes(data);
        assert(enc == head + pct_encode_bytes(data.drop_first()));
        if is_pct_unreserved(b) {
            assert(enc.first() == b);
            assert(b != 0x25);
            assert(enc.skip(1) =~= pct_encode_bytes(data.drop_first()));
            assert(pct_decode_bytes(enc) =~= data);
        } else {
            assert(enc.first() == 0x25);
            assert(enc[1] == spec_hex_upper_char((b / 16) as u8) as u8);
            assert(enc[2] == spec_hex_upper_char((b % 16) as u8) as u8);
            assert(hex_val(enc[1]) == Some((b / 16) as u8));
            assert(hex_val(enc[2]) == Some((b % 16) as u8));
            assert(enc.skip(3) =~= pct_encode_bytes(data.drop_first()));
            assert((b / 16) * 16 + (b % 16) == b) by (nonlinear_arith);
            assert(pct_decode_bytes(enc) =~= data);
        }
    }
}

/// Decoding inverts encoding: for every string, the encoded form decodes back
/// to the original.
pub proof fn lemma_pct_round_trip(s: Seq<char>)
    ensures
        spec_pct_decode(spec_pct_encode(s)) == Some(s),
{
    broadcast use vstd::utf8::group_utf8_lib;

    let bytes = encode_utf8(s);
    let enc = pct_encode_bytes(bytes);
    lemma_encode_bytes_ascii(bytes);
    let enc_chars = ascii_chars_of(enc);
    assert(vstd::utf8::is_ascii_chars(enc_chars)) by {
        assert forall|i: int| 0 <= i < enc_chars.len() implies (enc_chars[i] as nat) < 128 by {
            assert(enc_chars[i] == enc[i] as char);
        }
    }
    vstd::utf8::is_ascii_chars_encode_utf8(enc_chars);
    assert(encode_utf8(enc_chars) =~= enc) by {
        assert(encode_utf8(enc_chars) =~= Seq::new(enc_chars.len(), |i: int| enc_chars[i] as u8));
        assert forall|i: int| 0 <= i < enc.len() implies (enc[i] as char) as u8 == enc[i] by {
        }
    }
    lemma_decode_of_encode_bytes(bytes);
    assert(pct_decode_bytes(encode_utf8(enc_chars)) == bytes);
    vstd::utf8::encode_utf8_valid_utf8(s);
    vstd::utf8::encode_utf8_decode_utf8(s);
}

} // verus!
