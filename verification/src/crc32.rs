//! CRC-32 over the reflected IEEE 802.3 polynomial with initial value
//! all-ones, used to verify OGG page checksums.

use vstd::prelude::*;

verus! {

/// One shift step of the reflected CRC-32 register.
pub open spec fn crc32_step(c: u32) -> u32 {
    if c & 1 == 1 {
        0xEDB88320u32 ^ (c >> 1)
    } else {
        c >> 1
    }
}

/// `k` shift steps of the register.
pub open spec fn crc32_steps(c: u32, k: nat) -> u32
    decreases k,
{
    if k == 0 {
        c
    } else {
        crc32_steps(crc32_step(c), (k - 1) as nat)
    }
}

/// The register after absorbing one byte: xor it in, then eight steps.
pub open spec fn crc32_update(c: u32, b: u8) -> u32 {
    crc32_steps(c ^ (b as u32), 8)
}

/// The register after absorbing every byte of `s`, starting from `init`.
pub open spec fn crc32_state(init: u32, s: Seq<u8>) -> u32
    decreases s.len(),
{
    if s.len() == 0 {
        init
    } else {
        crc32_state(crc32_update(init, s.first()), s.drop_first())
    }
}

/// The CRC-32 of `s`: all-ones initial value, final complement.
pub open spec fn crc32_of(s: Seq<u8>) -> u32 {
    crc32_state(0xFFFFFFFFu32, s) ^ 0xFFFFFFFFu32
}

/// Computes the CRC-32 of a byte slice.
pub fn crc32(data: &[u8]) -> (r: u32)
    ensures
        r == crc32_of(data@),
{
    let mut c: u32 = 0xFFFFFFFF;
    let mut i: usize = 0;
    proof {
        vstd::slice::axiom_spec_len(data);
        assert(data@.skip(0) =~= data@);
    }
    while i < data.len()
        invariant
            0 <= i <= data@.len(),
            crc32_state(c, data@.skip(i as int)) == crc32_state(0xFFFFFFFF, data@),
        decreases data@.len() - i,
    {
        let ghost tail = data@.skip(i as int);
        let mut v: u32 = c ^ (data[i] as u32);
        let ghost v0 = v;
        let mut k: usize = 0;
        while k < 8
            invariant
                0 <= k <= 8,
                crc32_steps(v, (8 - k) as nat) == crc32_steps(v0, 8),
            decreases 8 - k,
        {
            if v & 1 == 1 {
                v = 0xEDB88320 ^ (v >> 1);
            } else {
                v = v >> 1;
            }
            k = k + 1;
        }
        proof {
            assert(v == crc32_update(c, tail.first()));
            assert(tail.drop_first() =~= data@.skip(i + 1));
        }
        c = v;
        i = i + 1;
    }
    proof {
        assert(data@.skip(data@.len() as int) =~= Seq::<u8>::empty());
    }
    c ^ 0xFFFFFFFF
}

} // verus!
