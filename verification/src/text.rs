//! Text helpers shared by the decoders: UTF-8 string construction with an
//! exact byte-level specification, and a first-occurrence search used for
//! nul- and delimiter-terminated reads.

use vstd::prelude::*;
use vstd::utf8::{
    decode_utf8, encode_scalar, encode_utf8, has_width_1_encoding, has_width_2_encoding,
    has_width_3_encoding, has_width_4_encoding, is_scalar, valid_utf8,
};

verus! {

/// Index of the first occurrence of `v` in `s`, or `s.len()` when `v` does
/// not occur.
pub open spec fn find_first<T>(s: Seq<T>, v: T) -> int
    decreases s.len(),
{
    if s.len() == 0 {
        0
    } else if s.first() == v {
        0
    } else {
        1 + find_first(s.drop_first(), v)
    }
}

/// Any index with the defining properties of `find_first` is `find_first`.
pub proof fn lemma_find_first_is<T>(s: Seq<T>, v: T, i: int)
    requires
        0 <= i <= s.len(),
        forall|k: int| 0 <= k < i ==> s[k] != v,
        i < s.len() ==> s[i] == v,
    ensures
        find_first(s, v) == i,
    decreases s.len(),
{
    if s.len() == 0 {
    } else if s.first() == v {
        assert(i == 0) by {
            if i > 0 {
                assert(s[0] != v);
            }
        }
    } else {
        assert(i > 0) by {
            if i == 0 {
                assert(s[0] == v);
            }
        }
        assert forall|k: int| 0 <= k < i - 1 implies s.drop_first()[k] != v by {
            assert(s.drop_first()[k] == s[k + 1]);
        }
        assert(i - 1 < s.drop_first().len() ==> s.drop_first()[i - 1] == v);
        lemma_find_first_is(s.drop_first(), v, i - 1);
    }
}

/// Relies on `alloc::string::String::from_utf8`: it succeeds exactly on
/// valid UTF-8 input, and the characters of the resulting string are the
/// decoding of the input bytes (`str::as_bytes` documents `from_utf8` as
/// its inverse).
#[verifier::external_body]
pub(crate) fn string_from_utf8(bytes: Vec<u8>) -> (r: Option<String>)
    ensures
        r is Some <==> valid_utf8(bytes@),
        r matches Some(s) ==> s@ == decode_utf8(bytes@) && encode_utf8(s@) == bytes@,
{
    match String::from_utf8(bytes) {
        Ok(s) => Some(s),
        Err(_) => None,
    }
}

/// True when `u` is a UTF-16 high (leading) surrogate.
pub open spec fn is_high_surrogate(u: u16) -> bool {
    0xD800 <= u <= 0xDBFF
}

/// True when `u` is a UTF-16 low (trailing) surrogate.
pub open spec fn is_low_surrogate(u: u16) -> bool {
    0xDC00 <= u <= 0xDFFF
}

/// Number of code units of the first scalar encoded in `units`.
pub open spec fn utf16_first_len(units: Seq<u16>) -> int {
    if is_high_surrogate(units[0]) {
        2
    } else {
        1
    }
}

/// The first Unicode scalar encoded in `units`, assuming the sequence
/// begins with a well-formed UTF-16 encoding of one scalar.
pub open spec fn utf16_first_scalar(units: Seq<u16>) -> u32 {
    if is_high_surrogate(units[0]) {
        (0x10000 + (units[0] as int - 0xD800) * 0x400 + (units[1] as int - 0xDC00)) as u32
    } else {
        units[0] as u32
    }
}

/// True when `units` is a well-formed UTF-16 code-unit sequence: every
/// high surrogate is followed by a low surrogate and no low surrogate
/// stands alone.
pub open spec fn valid_utf16(units: Seq<u16>) -> bool
    decreases units.len(),
{
    if units.len() == 0 {
        true
    } else if is_high_surrogate(units[0]) {
        units.len() >= 2 && is_low_surrogate(units[1]) && valid_utf16(units.skip(2))
    } else if is_low_surrogate(units[0]) {
        false
    } else {
        valid_utf16(units.skip(1))
    }
}

/// The character sequence encoded by `units`, assuming `valid_utf16`.
pub open spec fn decode_utf16(units: Seq<u16>) -> Seq<char>
    recommends
        valid_utf16(units),
    decreases units.len(),
    when valid_utf16(units)
{
    if units.len() == 0 {
        seq![]
    } else {
        seq![utf16_first_scalar(units) as char] + decode_utf16(units.skip(utf16_first_len(units)))
    }
}

/// Appending one character extends the UTF-8 encoding by that character's
/// scalar encoding.
pub proof fn lemma_encode_utf8_push(chars: Seq<char>, c: char)
    ensures
        encode_utf8(chars.push(c)) == encode_utf8(chars) + encode_scalar(c as u32),
    decreases chars.len(),
{
    if chars.len() == 0 {
        assert(chars.push(c).drop_first() =~= chars);
        assert(encode_utf8(chars.push(c)) =~= encode_utf8(chars) + encode_scalar(c as u32));
    } else {
        assert(chars.push(c).drop_first() =~= chars.drop_first().push(c));
        lemma_encode_utf8_push(chars.drop_first(), c);
        assert(encode_utf8(chars.push(c)) =~= encode_utf8(chars) + encode_scalar(c as u32));
    }
}

/// Appends the UTF-8 encoding of one Unicode scalar to `out`.
fn push_utf8_scalar(out: &mut Vec<u8>, scalar: u32)
    requires
        is_scalar(scalar),
    ensures
        final(out)@ == old(out)@ + encode_scalar(scalar),
{
    if scalar <= 0x7F {
        out.push((scalar & 0x7F) as u8);
        assert(final(out)@ =~= old(out)@ + encode_scalar(scalar));
    } else if scalar <= 0x7FF {
        assert((scalar >> 6) & 0x1F < 0x20 && scalar & 0x3F < 0x40) by (bit_vector);
        out.push(0xC0 | ((scalar >> 6) & 0x1F) as u8);
        out.push(0x80 | (scalar & 0x3F) as u8);
        assert(final(out)@ =~= old(out)@ + encode_scalar(scalar));
    } else if scalar <= 0xFFFF {
        assert((scalar >> 12) & 0x0F < 0x10 && (scalar >> 6) & 0x3F < 0x40 && scalar & 0x3F < 0x40)
            by (bit_vector);
        out.push(0xE0 | ((scalar >> 12) & 0x0F) as u8);
        out.push(0x80 | ((scalar >> 6) & 0x3F) as u8);
        out.push(0x80 | (scalar & 0x3F) as u8);
        assert(final(out)@ =~= old(out)@ + encode_scalar(scalar));
    } else {
        assert((scalar >> 18) & 0x7 < 0x8 && (scalar >> 12) & 0x3F < 0x40 && (scalar >> 6) & 0x3F
            < 0x40 && scalar & 0x3F < 0x40) by (bit_vector);
        out.push(0xF0 | ((scalar >> 18) & 0x7) as u8);
        out.push(0x80 | ((scalar >> 12) & 0x3F) as u8);
        out.push(0x80 | ((scalar >> 6) & 0x3F) as u8);
        out.push(0x80 | (scalar & 0x3F) as u8);
        assert(final(out)@ =~= old(out)@ + encode_scalar(scalar));
    }
}

/// Decodes a UTF-16 code-unit sequence into a string; `None` exactly when
/// the sequence is not well-formed UTF-16.
pub fn utf16_to_string(units: &Vec<u16>) -> (r: Option<String>)
    ensures
        r is Some <==> valid_utf16(units@),
        r matches Some(s) ==> s@ == decode_utf16(units@),
{
    let mut out: Vec<u8> = Vec::new();
    let ghost mut done: Seq<char> = Seq::empty();
    let mut i: usize = 0;
    proof {
        assert(units@.skip(0) =~= units@);
    }
    while i < units.len()
        invariant
            0 <= i <= units@.len(),
            valid_utf16(units@) <==> valid_utf16(units@.skip(i as int)),
            valid_utf16(units@) ==> decode_utf16(units@) == done + decode_utf16(
                units@.skip(i as int),
            ),
            out@ == encode_utf8(done),
        decreases units@.len() - i,
    {
        let ghost tail = units@.skip(i as int);
        let u = units[i];
        let scalar: u32;
        let step: usize;
        if 0xD800 <= u && u <= 0xDBFF {
            if i + 1 >= units.len() {
                assert(!valid_utf16(tail));
                return None;
            }
            let u2 = units[i + 1];
            if !(0xDC00 <= u2 && u2 <= 0xDFFF) {
                assert(!valid_utf16(tail));
                return None;
            }
            scalar = 0x10000 + (((u - 0xD800) as u32) * 0x400) + ((u2 - 0xDC00) as u32);
            step = 2;
            assert(has_width_4_encoding(scalar));
            assert(scalar == utf16_first_scalar(tail));
        } else if 0xDC00 <= u && u <= 0xDFFF {
            assert(!valid_utf16(tail));
            return None;
        } else {
            scalar = u as u32;
            step = 1;
            assert(has_width_1_encoding(scalar) || has_width_2_encoding(scalar)
                || has_width_3_encoding(scalar));
            assert(scalar == utf16_first_scalar(tail));
        }
        push_utf8_scalar(&mut out, scalar);
        proof {
            assert(tail.skip(step as int) =~= units@.skip(i + step));
            lemma_encode_utf8_push(done, scalar as char);
            vstd::utf8::char_u32_cast(scalar as char, scalar);
            done = done.push(scalar as char);
        }
        i = i + step;
    }
    proof {
        assert(units@.skip(i as int) =~= Seq::<u16>::empty());
        assert(valid_utf16(units@));
        assert(decode_utf16(units@) == done + decode_utf16(units@.skip(i as int)));
        assert(decode_utf16(units@) =~= done);
        vstd::utf8::encode_utf8_valid_utf8(done);
        vstd::utf8::encode_utf8_decode_utf8(done);
    }
    match string_from_utf8(out) {
        Some(s) => Some(s),
        None => None,
    }
}

/// The sequence of 16-bit code units packed two bytes each in `b`, in the
/// given byte order (a trailing odd byte is ignored).
pub open spec fn utf16_units(b: Seq<u8>, little_endian: bool) -> Seq<u16> {
    Seq::new(
        (b.len() / 2) as nat,
        |i: int|
            if little_endian {
                (b[2 * i] + 256 * b[2 * i + 1]) as u16
            } else {
                (256 * b[2 * i] + b[2 * i + 1]) as u16
            },
    )
}

/// Packs pairs of bytes into 16-bit code units in the given byte order.
pub fn bytes_to_utf16(b: &[u8], little_endian: bool) -> (r: Vec<u16>)
    ensures
        r@ == utf16_units(b@, little_endian),
{
    let mut out: Vec<u16> = Vec::new();
    let n = b.len() / 2;
    let mut i: usize = 0;
    while i < n
        invariant
            0 <= i <= n,
            n == b@.len() / 2,
            b@.len() <= usize::MAX,
            out@.len() == i,
            forall|k: int| 0 <= k < i ==> out@[k] == utf16_units(b@, little_endian)[k],
        decreases n - i,
    {
        let lo_index = if little_endian {
            2 * i
        } else {
            2 * i + 1
        };
        let hi_index = if little_endian {
            2 * i + 1
        } else {
            2 * i
        };
        let unit: u16 = (b[lo_index] as u16) + 256 * (b[hi_index] as u16);
        out.push(unit);
        i = i + 1;
    }
    proof {
        assert(out@ =~= utf16_units(b@, little_endian));
    }
    out
}

} // verus!
