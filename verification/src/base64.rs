//! Standard-alphabet base64 decoding, used for the `METADATA_BLOCK_PICTURE`
//! comment value that carries a picture structure inside an OGG stream.

use vstd::prelude::*;

verus! {

/// The value of one base64 digit: 0 to 63 for the standard alphabet, 64
/// for the `=` padding byte, 255 for anything else.
pub open spec fn b64_digit(c: u8) -> u8 {
    if 0x41 <= c <= 0x5A {
        (c - 0x41) as u8
    } else if 0x61 <= c <= 0x7A {
        (c - 0x61 + 26) as u8
    } else if 0x30 <= c <= 0x39 {
        (c - 0x30 + 52) as u8
    } else if c == 0x2B {
        62
    } else if c == 0x2F {
        63
    } else if c == 0x3D {
        64
    } else {
        255
    }
}

/// The bytes of one four-digit group: three bytes, or fewer when the
/// group ends with `=` padding; `None` when a digit is invalid or the
/// padding is malformed.
pub open spec fn b64_group(a: u8, b: u8, c: u8, d: u8) -> Option<Seq<u8>> {
    let va = b64_digit(a);
    let vb = b64_digit(b);
    let vc = b64_digit(c);
    let vd = b64_digit(d);
    if va >= 64 || vb >= 64 {
        None
    } else if vc == 64 {
        if vd == 64 {
            Some(seq![(va * 4 + vb / 16) as u8])
        } else {
            None
        }
    } else if vc > 64 {
        None
    } else if vd == 64 {
        Some(seq![(va * 4 + vb / 16) as u8, ((vb % 16) * 16 + vc / 4) as u8])
    } else if vd > 64 {
        None
    } else {
        Some(
            seq![
                (va * 4 + vb / 16) as u8,
                ((vb % 16) * 16 + vc / 4) as u8,
                ((vc % 4) * 64 + vd) as u8,
            ],
        )
    }
}

/// The bytes encoded by `s`: groups of four digits, with `=` padding
/// allowed only in the final group; `None` when the length is not a
/// multiple of four or a group is malformed.
pub open spec fn spec_b64_decode(s: Seq<u8>) -> Option<Seq<u8>>
    decreases s.len(),
{
    if s.len() == 0 {
        Some(seq![])
    } else if s.len() < 4 {
        None
    } else {
        match b64_group(s[0], s[1], s[2], s[3]) {
            None => None,
            Some(bytes) => {
                if bytes.len() < 3 && s.len() > 4 {
                    None
                } else {
                    match spec_b64_decode(s.skip(4)) {
                        None => None,
                        Some(rest) => Some(bytes + rest),
                    }
                }
            },
        }
    }
}

/// The digit value of one base64 byte.
fn b64_digit_of(c: u8) -> (r: u8)
    ensures
        r == b64_digit(c),
{
    if 0x41 <= c && c <= 0x5A {
        c - 0x41
    } else if 0x61 <= c && c <= 0x7A {
        c - 0x61 + 26
    } else if 0x30 <= c && c <= 0x39 {
        c - 0x30 + 52
    } else if c == 0x2B {
        62
    } else if c == 0x2F {
        63
    } else if c == 0x3D {
        64
    } else {
        255
    }
}

/// Decodes standard base64; `None` exactly when the input is not a
/// well-formed base64 encoding.
#[verifier::loop_isolation(false)]
#[verifier::rlimit(60)]
pub fn b64_decode(s: &[u8]) -> (r: Option<Vec<u8>>)
    ensures
        match spec_b64_decode(s@) {
            Some(bytes) => r matches Some(v) && v@ == bytes,
            None => r is None,
        },
{
    let ghost target = spec_b64_decode(s@);
    if s.len() % 4 != 0 {
        proof {
            if s@.len() != 0 {
                lemma_b64_len_multiple(s@);
            }
        }
        return None;
    }
    let mut out: Vec<u8> = Vec::new();
    let mut i: usize = 0;
    proof {
        assert(s@.skip(0) =~= s@);
        if target is Some {
            assert(Seq::<u8>::empty() + target->0 =~= target->0);
        }
    }
    while i < s.len()
        invariant
            0 <= i <= s@.len(),
            i % 4 == 0,
            s@.len() % 4 == 0,
            target == (match spec_b64_decode(s@.skip(i as int)) {
                None => None::<Seq<u8>>,
                Some(rest) => Some(out@ + rest),
            }),
        decreases s@.len() - i,
    {
        let ghost tail = s@.skip(i as int);
        let va = b64_digit_of(s[i]);
        let vb = b64_digit_of(s[i + 1]);
        let vc = b64_digit_of(s[i + 2]);
        let vd = b64_digit_of(s[i + 3]);
        let ghost out0 = out@;
        if va >= 64 || vb >= 64 {
            return None;
        }
        if vc == 64 {
            if vd != 64 {
                return None;
            }
            if i + 4 < s.len() {
                return None;
            }
            out.push(va * 4 + vb / 16);
        } else if vc > 64 {
            return None;
        } else if vd == 64 {
            if i + 4 < s.len() {
                return None;
            }
            out.push(va * 4 + vb / 16);
            out.push((vb % 16) * 16 + vc / 4);
        } else if vd > 64 {
            return None;
        } else {
            out.push(va * 4 + vb / 16);
            out.push((vb % 16) * 16 + vc / 4);
            out.push((vc % 4) * 64 + vd);
        }
        proof {
            assert(tail[0] == s@[i as int] && tail[1] == s@[i + 1] && tail[2] == s@[i + 2]
                && tail[3] == s@[i + 3]);
            assert(tail.skip(4) =~= s@.skip(i + 4));
            let grp = b64_group(s@[i as int], s@[i + 1], s@[i + 2], s@[i + 3])->0;
            assert(out@ =~= out0 + grp);
            let rest = spec_b64_decode(s@.skip(i + 4));
            if rest is Some {
                assert(out0 + (grp + rest->0) =~= (out0 + grp) + rest->0);
            }
        }
        i = i + 4;
    }
    proof {
        assert(s@.skip(s@.len() as int) =~= Seq::<u8>::empty());
        assert(out@ + Seq::<u8>::empty() =~= out@);
    }
    Some(out)
}

/// A well-formed base64 encoding has a length that is a multiple of four.
proof fn lemma_b64_len_multiple(s: Seq<u8>)
    requires
        s.len() % 4 != 0,
    ensures
        spec_b64_decode(s) is None,
    decreases s.len(),
{
    if s.len() >= 4 {
        assert(s.skip(4).len() % 4 != 0);
        lemma_b64_len_multiple(s.skip(4));
    }
}

} // verus!
