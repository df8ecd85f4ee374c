//! Sequential bounds-checked reader over an immutable byte buffer: the
//! byte cursor every decoder in this crate drives forward. Reads never go
//! past the end of the buffer; a read whose requested length would cross
//! the end fails with a bounds violation instead of truncating.

use vstd::prelude::*;
use vstd::slice::slice_to_vec;
use vstd::utf8::{decode_utf8, valid_utf8};

use crate::text::{
    bytes_to_utf16, decode_utf16, find_first, lemma_find_first_is,
    string_from_utf8, utf16_to_string, utf16_units, valid_utf16,
};
use crate::DecodeError;

verus! {

/// Value of `b` read as a big-endian unsigned integer.
pub open spec fn be_val(b: Seq<u8>) -> nat
    decreases b.len(),
{
    if b.len() == 0 {
        0
    } else {
        be_val(b.drop_last()) * 256 + (b.last() as nat)
    }
}

/// Value of `b` read as a little-endian unsigned integer.
pub open spec fn le_val(b: Seq<u8>) -> nat
    decreases b.len(),
{
    if b.len() == 0 {
        0
    } else {
        (b.first() as nat) + 256 * le_val(b.drop_first())
    }
}

/// 256 to the power `n`: the number of values an `n`-byte field can take.
pub open spec fn pow256(n: nat) -> nat
    decreases n,
{
    if n == 0 {
        1
    } else {
        256 * pow256((n - 1) as nat)
    }
}

pub proof fn lemma_pow256_mono(i: nat, j: nat)
    requires
        i <= j,
    ensures
        pow256(i) <= pow256(j),
    decreases j,
{
    if i < j {
        lemma_pow256_mono(i, (j - 1) as nat);
    }
}

/// The `n`-byte little-endian encoding of `v`.
pub open spec fn le_bytes(v: nat, n: nat) -> Seq<u8>
    decreases n,
{
    if n == 0 {
        seq![]
    } else {
        seq![(v % 256) as u8] + le_bytes(v / 256, (n - 1) as nat)
    }
}

/// `le_bytes` is a right inverse of `le_val` on values that fit.
pub proof fn lemma_le_bytes_val(v: nat, n: nat)
    requires
        v < pow256(n),
    ensures
        le_bytes(v, n).len() == n,
        le_val(le_bytes(v, n)) == v,
    decreases n,
{
    if n != 0 {
        assert(v / 256 < pow256((n - 1) as nat) && v % 256 + 256 * (v / 256) == v) by (
        nonlinear_arith)
            requires
                v < 256 * pow256((n - 1) as nat),
        ;
        lemma_le_bytes_val(v / 256, (n - 1) as nat);
        let s = le_bytes(v, n);
        assert(s.drop_first() =~= le_bytes(v / 256, (n - 1) as nat));
    }
}

/// Appends the 4-byte little-endian encoding of `v` to `out`.
pub fn push_le32(out: &mut Vec<u8>, v: u32)
    ensures
        final(out)@ == old(out)@ + le_bytes(v as nat, 4),
{
    let b0 = (v % 256) as u8;
    let v1 = v / 256;
    let b1 = (v1 % 256) as u8;
    let v2 = v1 / 256;
    let b2 = (v2 % 256) as u8;
    let v3 = v2 / 256;
    let b3 = (v3 % 256) as u8;
    out.push(b0);
    out.push(b1);
    out.push(b2);
    out.push(b3);
    proof {
        reveal_with_fuel(le_bytes, 5);
        assert(final(out)@ =~= old(out)@ + le_bytes(v as nat, 4));
    }
}

/// An immutable byte buffer together with a read position. The position
/// never exceeds the buffer length (`wf`).
pub struct ByteReader<'a> {
    bytes: &'a [u8],
    pos: usize,
}

impl<'a> ByteReader<'a> {
    /// The underlying buffer.
    pub closed spec fn data(&self) -> Seq<u8> {
        self.bytes@
    }

    /// The current read position.
    pub closed spec fn pos(&self) -> int {
        self.pos as int
    }

    /// The cursor invariant: the position is within the buffer.
    pub open spec fn wf(&self) -> bool {
        0 <= self.pos() <= self.data().len()
    }

    /// Number of bytes left to read.
    pub open spec fn remaining(&self) -> int {
        self.data().len() - self.pos()
    }

    pub fn new(bytes: &'a [u8]) -> (r: Self)
        ensures
            r.wf(),
            r.data() == bytes@,
            r.pos() == 0,
    {
        ByteReader { bytes, pos: 0 }
    }

    /// A cursor positioned `offset` bytes into the buffer.
    pub fn with_offset(bytes: &'a [u8], offset: usize) -> (r: Result<Self, DecodeError>)
        ensures
            offset <= bytes@.len() ==> (r matches Ok(c) && c.wf() && c.data() == bytes@
                && c.pos() == offset),
            offset > bytes@.len() ==> r == Err::<Self, DecodeError>(
                DecodeError::BoundsViolation { offset },
            ),
    {
        if offset <= bytes.len() {
            Ok(ByteReader { bytes, pos: offset })
        } else {
            Err(DecodeError::BoundsViolation { offset })
        }
    }

    pub fn len(&self) -> (r: usize)
        ensures
            r == self.data().len(),
    {
        self.bytes.len()
    }

    pub fn offset(&self) -> (r: usize)
        requires
            self.wf(),
        ensures
            r == self.pos(),
    {
        self.pos
    }

    pub fn is_end(&self) -> (r: bool)
        requires
            self.wf(),
        ensures
            r == (self.pos() == self.data().len()),
    {
        self.pos == self.bytes.len()
    }

    pub fn remaining_len(&self) -> (r: usize)
        requires
            self.wf(),
        ensures
            r == self.remaining(),
    {
        self.bytes.len() - self.pos
    }

    /// The next `n` bytes, without advancing.
    pub fn peek(&self, n: usize) -> (r: Result<&'a [u8], DecodeError>)
        requires
            self.wf(),
        ensures
            self.pos() + n <= self.data().len() ==> (r matches Ok(s) && s@ == self.data().subrange(
                self.pos(),
                self.pos() + n,
            )),
            self.pos() + n > self.data().len() ==> r == Err::<&'a [u8], DecodeError>(
                DecodeError::BoundsViolation { offset: self.pos() as usize },
            ),
    {
        if n <= self.bytes.len() - self.pos {
            Ok(&self.bytes[self.pos..self.pos + n])
        } else {
            Err(DecodeError::BoundsViolation { offset: self.pos })
        }
    }

    /// Re-read an already-visited span `[start, end)` of the buffer,
    /// independent of the current position (used for checksum
    /// recomputation).
    pub fn peek_range(&self, start: usize, end: usize) -> (r: Result<&'a [u8], DecodeError>)
        ensures
            start <= end <= self.data().len() ==> (r matches Ok(s) && s@ == self.data().subrange(
                start as int,
                end as int,
            )),
            !(start <= end <= self.data().len()) ==> r == Err::<&'a [u8], DecodeError>(
                DecodeError::BoundsViolation { offset: start },
            ),
    {
        if start <= end && end <= self.bytes.len() {
            Ok(&self.bytes[start..end])
        } else {
            Err(DecodeError::BoundsViolation { offset: start })
        }
    }

    /// The next `n` bytes, advancing past them.
    pub fn read(&mut self, n: usize) -> (r: Result<&'a [u8], DecodeError>)
        requires
            old(self).wf(),
        ensures
            final(self).wf(),
            final(self).data() == old(self).data(),
            old(self).pos() + n <= old(self).data().len() ==> (r matches Ok(s) && s@ == old(
                self,
            ).data().subrange(old(self).pos(), old(self).pos() + n) && final(self).pos() == old(
                self,
            ).pos() + n),
            old(self).pos() + n > old(self).data().len() ==> r == Err::<&'a [u8], DecodeError>(
                DecodeError::BoundsViolation { offset: old(self).pos() as usize },
            ) && final(self).pos() == old(self).pos(),
    {
        if n <= self.bytes.len() - self.pos {
            let s = &self.bytes[self.pos..self.pos + n];
            self.pos = self.pos + n;
            Ok(s)
        } else {
            Err(DecodeError::BoundsViolation { offset: self.pos })
        }
    }

    /// The next `n` bytes as an owned vector, advancing past them.
    pub fn read_vec(&mut self, n: usize) -> (r: Result<Vec<u8>, DecodeError>)
        requires
            old(self).wf(),
        ensures
            final(self).wf(),
            final(self).data() == old(self).data(),
            old(self).pos() + n <= old(self).data().len() ==> (r matches Ok(s) && s@ == old(
                self,
            ).data().subrange(old(self).pos(), old(self).pos() + n) && final(self).pos() == old(
                self,
            ).pos() + n),
            old(self).pos() + n > old(self).data().len() ==> r == Err::<Vec<u8>, DecodeError>(
                DecodeError::BoundsViolation { offset: old(self).pos() as usize },
            ) && final(self).pos() == old(self).pos(),
    {
        match self.read(n) {
            Ok(s) => Ok(slice_to_vec(s)),
            Err(e) => Err(e),
        }
    }

    /// All bytes from the current position to the end, advancing to the end.
    pub fn read_remaining(&mut self) -> (r: Vec<u8>)
        requires
            old(self).wf(),
        ensures
            final(self).wf(),
            final(self).data() == old(self).data(),
            final(self).pos() == old(self).data().len(),
            r@ == old(self).data().subrange(old(self).pos(), old(self).data().len() as int),
    {
        let n = self.bytes.len() - self.pos;
        match self.read_vec(n) {
            Ok(v) => v,
            Err(_) => Vec::new(),
        }
    }

    /// Advance `n` bytes without returning them.
    pub fn skip(&mut self, n: usize) -> (r: Result<(), DecodeError>)
        requires
            old(self).wf(),
        ensures
            final(self).wf(),
            final(self).data() == old(self).data(),
            old(self).pos() + n <= old(self).data().len() ==> r is Ok && final(self).pos() == old(
                self,
            ).pos() + n,
            old(self).pos() + n > old(self).data().len() ==> r == Err::<(), DecodeError>(
                DecodeError::BoundsViolation { offset: old(self).pos() as usize },
            ) && final(self).pos() == old(self).pos(),
    {
        if n <= self.bytes.len() - self.pos {
            self.pos = self.pos + n;
            Ok(())
        } else {
            Err(DecodeError::BoundsViolation { offset: self.pos })
        }
    }

    /// Reposition to an absolute offset.
    pub fn seek_to(&mut self, offset: usize) -> (r: Result<(), DecodeError>)
        requires
            old(self).wf(),
        ensures
            final(self).wf(),
            final(self).data() == old(self).data(),
            offset <= old(self).data().len() ==> r is Ok && final(self).pos() == offset,
            offset > old(self).data().len() ==> r == Err::<(), DecodeError>(
                DecodeError::BoundsViolation { offset },
            ) && final(self).pos() == old(self).pos(),
    {
        if offset <= self.bytes.len() {
            self.pos = offset;
            Ok(())
        } else {
            Err(DecodeError::BoundsViolation { offset })
        }
    }

    /// Reposition to `n` bytes before the end of the buffer.
    pub fn seek_from_end(&mut self, n: usize) -> (r: Result<(), DecodeError>)
        requires
            old(self).wf(),
        ensures
            final(self).wf(),
            final(self).data() == old(self).data(),
            n <= old(self).data().len() ==> r is Ok && final(self).pos() == old(self).data().len()
                - n,
            n > old(self).data().len() ==> r == Err::<(), DecodeError>(
                DecodeError::BoundsViolation { offset: old(self).pos() as usize },
            ) && final(self).pos() == old(self).pos(),
    {
        if n <= self.bytes.len() {
            self.pos = self.bytes.len() - n;
            Ok(())
        } else {
            Err(DecodeError::BoundsViolation { offset: self.pos })
        }
    }

    /// The next `n` bytes combined as a big-endian unsigned integer.
    pub fn read_uint_be(&mut self, n: usize) -> (r: Result<u64, DecodeError>)
        requires
            old(self).wf(),
            n <= 8,
        ensures
            final(self).wf(),
            final(self).data() == old(self).data(),
            old(self).pos() + n <= old(self).data().len() ==> (r matches Ok(v) && v as nat == be_val(
                old(self).data().subrange(old(self).pos(), old(self).pos() + n),
            ) && v < pow256(n as nat) && final(self).pos() == old(self).pos() + n),
            old(self).pos() + n > old(self).data().len() ==> r == Err::<u64, DecodeError>(
                DecodeError::BoundsViolation { offset: old(self).pos() as usize },
            ) && final(self).pos() == old(self).pos(),
    {
        let s = match self.read(n) {
            Ok(s) => s,
            Err(e) => { return Err(e) },
        };
        let mut acc: u64 = 0;
        let mut i: usize = 0;
        while i < n
            invariant
                i <= n <= 8,
                s@.len() == n,
                acc as nat == be_val(s@.take(i as int)),
                acc < pow256(i as nat),
            decreases n - i,
        {
            proof {
                lemma_pow256_mono(i as nat, 7);
                assert(pow256(7) == 0x100000000000000) by {
                    reveal_with_fuel(pow256, 8);
                }
                assert(s@.take(i + 1).drop_last() =~= s@.take(i as int));
                assert(s@.take(i + 1).last() == s@[i as int]);
            }
            acc = acc * 256 + (s[i] as u64);
            i = i + 1;
        }
        proof {
            assert(s@.take(n as int) =~= s@);
        }
        Ok(acc)
    }

    /// The next `n` bytes combined as a little-endian unsigned integer.
    pub fn read_uint_le(&mut self, n: usize) -> (r: Result<u64, DecodeError>)
        requires
            old(self).wf(),
            n <= 8,
        ensures
            final(self).wf(),
            final(self).data() == old(self).data(),
            old(self).pos() + n <= old(self).data().len() ==> (r matches Ok(v) && v as nat == le_val(
                old(self).data().subrange(old(self).pos(), old(self).pos() + n),
            ) && v < pow256(n as nat) && final(self).pos() == old(self).pos() + n),
            old(self).pos() + n > old(self).data().len() ==> r == Err::<u64, DecodeError>(
                DecodeError::BoundsViolation { offset: old(self).pos() as usize },
            ) && final(self).pos() == old(self).pos(),
    {
        let s = match self.read(n) {
            Ok(s) => s,
            Err(e) => { return Err(e) },
        };
        let mut acc: u64 = 0;
        let mut j: usize = n;
        while j > 0
            invariant
                j <= n <= 8,
                s@.len() == n,
                acc as nat == le_val(s@.skip(j as int)),
                acc < pow256((n - j) as nat),
            decreases j,
        {
            proof {
                lemma_pow256_mono((n - j) as nat, 7);
                assert(pow256(7) == 0x100000000000000) by {
                    reveal_with_fuel(pow256, 8);
                }
                assert(s@.skip(j - 1).drop_first() =~= s@.skip(j as int));
                assert(s@.skip(j - 1).first() == s@[j - 1]);
            }
            j = j - 1;
            acc = (s[j] as u64) + 256 * acc;
        }
        proof {
            assert(s@.skip(0) =~= s@);
        }
        Ok(acc)
    }

    /// One byte.
    pub fn read_u8(&mut self) -> (r: Result<u8, DecodeError>)
        requires
            old(self).wf(),
        ensures
            final(self).wf(),
            final(self).data() == old(self).data(),
            old(self).pos() + 1 <= old(self).data().len() ==> (r matches Ok(v) && v == old(
                self,
            ).data()[old(self).pos()] && final(self).pos() == old(self).pos() + 1),
            old(self).pos() + 1 > old(self).data().len() ==> r == Err::<u8, DecodeError>(
                DecodeError::BoundsViolation { offset: old(self).pos() as usize },
            ) && final(self).pos() == old(self).pos(),
    {
        let s = match self.read(1) {
            Ok(s) => s,
            Err(e) => { return Err(e) },
        };
        Ok(s[0])
    }

    /// A 16-bit integer of the given endianness.
    pub fn read_u16(&mut self, big_endian: bool) -> (r: Result<u16, DecodeError>)
        requires
            old(self).wf(),
        ensures
            final(self).wf(),
            final(self).data() == old(self).data(),
            old(self).pos() + 2 <= old(self).data().len() ==> (r matches Ok(v) && v as nat == ({
                let seg = old(self).data().subrange(old(self).pos(), old(self).pos() + 2);
                if big_endian {
                    be_val(seg)
                } else {
                    le_val(seg)
                }
            }) && final(self).pos() == old(self).pos() + 2),
            old(self).pos() + 2 > old(self).data().len() ==> r == Err::<u16, DecodeError>(
                DecodeError::BoundsViolation { offset: old(self).pos() as usize },
            ) && final(self).pos() == old(self).pos(),
    {
        let v = if big_endian {
            self.read_uint_be(2)
        } else {
            self.read_uint_le(2)
        };
        proof {
            assert(pow256(2) == 0x10000) by {
                reveal_with_fuel(pow256, 3);
            }
        }
        match v {
            Ok(v) => Ok(v as u16),
            Err(e) => Err(e),
        }
    }

    /// A 32-bit integer of the given endianness.
    pub fn read_u32(&mut self, big_endian: bool) -> (r: Result<u32, DecodeError>)
        requires
            old(self).wf(),
        ensures
            final(self).wf(),
            final(self).data() == old(self).data(),
            old(self).pos() + 4 <= old(self).data().len() ==> (r matches Ok(v) && v as nat == ({
                let seg = old(self).data().subrange(old(self).pos(), old(self).pos() + 4);
                if big_endian {
                    be_val(seg)
                } else {
                    le_val(seg)
                }
            }) && final(self).pos() == old(self).pos() + 4),
            old(self).pos() + 4 > old(self).data().len() ==> r == Err::<u32, DecodeError>(
                DecodeError::BoundsViolation { offset: old(self).pos() as usize },
            ) && final(self).pos() == old(self).pos(),
    {
        let v = if big_endian {
            self.read_uint_be(4)
        } else {
            self.read_uint_le(4)
        };
        proof {
            assert(pow256(4) == 0x100000000) by {
                reveal_with_fuel(pow256, 5);
            }
        }
        match v {
            Ok(v) => Ok(v as u32),
            Err(e) => Err(e),
        }
    }

    /// A 64-bit integer of the given endianness.
    pub fn read_u64(&mut self, big_endian: bool) -> (r: Result<u64, DecodeError>)
        requires
            old(self).wf(),
        ensures
            final(self).wf(),
            final(self).data() == old(self).data(),
            old(self).pos() + 8 <= old(self).data().len() ==> (r matches Ok(v) && v as nat == ({
                let seg = old(self).data().subrange(old(self).pos(), old(self).pos() + 8);
                if big_endian {
                    be_val(seg)
                } else {
                    le_val(seg)
                }
            }) && final(self).pos() == old(self).pos() + 8),
            old(self).pos() + 8 > old(self).data().len() ==> r == Err::<u64, DecodeError>(
                DecodeError::BoundsViolation { offset: old(self).pos() as usize },
            ) && final(self).pos() == old(self).pos(),
    {
        if big_endian {
            self.read_uint_be(8)
        } else {
            self.read_uint_le(8)
        }
    }

    /// A 32-bit two's-complement signed integer of the given endianness.
    pub fn read_i32(&mut self, big_endian: bool) -> (r: Result<i32, DecodeError>)
        requires
            old(self).wf(),
        ensures
            final(self).wf(),
            final(self).data() == old(self).data(),
            old(self).pos() + 4 <= old(self).data().len() ==> (r matches Ok(v) && v as int == ({
                let seg = old(self).data().subrange(old(self).pos(), old(self).pos() + 4);
                let u = if big_endian {
                    be_val(seg)
                } else {
                    le_val(seg)
                };
                if u < 0x80000000 {
                    u as int
                } else {
                    u as int - 0x100000000
                }
            }) && final(self).pos() == old(self).pos() + 4),
            old(self).pos() + 4 > old(self).data().len() ==> r == Err::<i32, DecodeError>(
                DecodeError::BoundsViolation { offset: old(self).pos() as usize },
            ) && final(self).pos() == old(self).pos(),
    {
        let u = match self.read_u32(big_endian) {
            Ok(u) => u,
            Err(e) => { return Err(e) },
        };
        if u < 0x80000000 {
            Ok(u as i32)
        } else {
            Ok(((u - 0x80000000) as i32) + i32::MIN)
        }
    }

    /// A UTF-8 string decoded from exactly `n` bytes.
    pub fn read_utf8_fixed(&mut self, n: usize) -> (r: Result<String, DecodeError>)
        requires
            old(self).wf(),
        ensures
            final(self).wf(),
            final(self).data() == old(self).data(),
            ({
                let start = old(self).pos();
                let d = old(self).data();
                if start + n > d.len() {
                    r == Err::<String, DecodeError>(
                        DecodeError::BoundsViolation { offset: start as usize },
                    ) && final(self).pos() == start
                } else if !valid_utf8(d.subrange(start, start + n)) {
                    r == Err::<String, DecodeError>(
                        DecodeError::EncodingViolation { offset: start as usize },
                    ) && final(self).pos() == start
                } else {
                    r matches Ok(s) && s@ == decode_utf8(d.subrange(start, start + n))
                        && final(self).pos() == start + n
                }
            }),
    {
        let start = self.pos;
        let s = match self.read(n) {
            Ok(s) => s,
            Err(e) => { return Err(e) },
        };
        match string_from_utf8(slice_to_vec(s)) {
            Some(text) => Ok(text),
            None => {
                self.pos = start;
                Err(DecodeError::EncodingViolation { offset: start })
            },
        }
    }

    /// A UTF-8 string terminated by a single zero byte, consuming the
    /// terminator; when no zero byte follows, the rest of the buffer is
    /// the string.
    pub fn read_utf8_until_nul(&mut self) -> (r: Result<String, DecodeError>)
        requires
            old(self).wf(),
        ensures
            final(self).wf(),
            final(self).data() == old(self).data(),
            ({
                let start = old(self).pos();
                let d = old(self).data();
                let rel = find_first(d.subrange(start, d.len() as int), 0u8);
                let content = d.subrange(start, start + rel);
                if !valid_utf8(content) {
                    r == Err::<String, DecodeError>(
                        DecodeError::EncodingViolation { offset: start as usize },
                    ) && final(self).pos() == start
                } else {
                    r matches Ok(s) && s@ == decode_utf8(content) && final(self).pos() == (
                    if start + rel < d.len() {
                        start + rel + 1
                    } else {
                        start + rel
                    })
                }
            }),
    {
        let ghost d = self.data();
        let ghost start = self.pos();
        let mut i: usize = self.pos;
        while i < self.bytes.len() && self.bytes[i] != 0
            invariant
                self.wf(),
                self.pos() <= i <= self.data().len(),
                forall|k: int| self.pos() <= k < i ==> self.data()[k] != 0u8,
            decreases self.data().len() - i,
        {
            i = i + 1;
        }
        proof {
            let tail = d.subrange(start, d.len() as int);
            assert forall|k: int| 0 <= k < i - start implies tail[k] != 0u8 by {
                assert(tail[k] == d[start + k]);
            }
            assert(i - start < tail.len() ==> tail[i - start] == 0u8);
            lemma_find_first_is(tail, 0u8, i - start);
        }
        let s = &self.bytes[self.pos..i];
        match string_from_utf8(slice_to_vec(s)) {
            Some(text) => {
                if i < self.bytes.len() {
                    self.pos = i + 1;
                } else {
                    self.pos = i;
                }
                Ok(text)
            },
            None => Err(DecodeError::EncodingViolation { offset: self.pos }),
        }
    }

    /// A UTF-16 string decoded from exactly `n` bytes (two bytes per code
    /// unit, in the given byte order).
    pub fn read_utf16_fixed(&mut self, n: usize, little_endian: bool) -> (r: Result<
        String,
        DecodeError,
    >)
        requires
            old(self).wf(),
        ensures
            final(self).wf(),
            final(self).data() == old(self).data(),
            ({
                let start = old(self).pos();
                let d = old(self).data();
                if start + n > d.len() {
                    r == Err::<String, DecodeError>(
                        DecodeError::BoundsViolation { offset: start as usize },
                    ) && final(self).pos() == start
                } else if n % 2 != 0 || !valid_utf16(
                    utf16_units(d.subrange(start, start + n), little_endian),
                ) {
                    r == Err::<String, DecodeError>(
                        DecodeError::EncodingViolation { offset: start as usize },
                    ) && final(self).pos() == start
                } else {
                    r matches Ok(s) && s@ == decode_utf16(
                        utf16_units(d.subrange(start, start + n), little_endian),
                    ) && final(self).pos() == start + n
                }
            }),
    {
        let start = self.pos;
        let s = match self.read(n) {
            Ok(s) => s,
            Err(e) => { return Err(e) },
        };
        if n % 2 != 0 {
            self.pos = start;
            return Err(DecodeError::EncodingViolation { offset: start });
        }
        let units = bytes_to_utf16(s, little_endian);
        match utf16_to_string(&units) {
            Some(text) => Ok(text),
            None => {
                self.pos = start;
                Err(DecodeError::EncodingViolation { offset: start })
            },
        }
    }

    /// A UTF-16 string terminated by a zero code unit, consuming the
    /// terminator; when no zero unit follows, the rest of the buffer is
    /// the string (a trailing odd byte cannot belong to any code unit and
    /// is consumed without being decoded).
    pub fn read_utf16_until_nul_pair(&mut self, little_endian: bool) -> (r: Result<
        String,
        DecodeError,
    >)
        requires
            old(self).wf(),
        ensures
            final(self).wf(),
            final(self).data() == old(self).data(),
            ({
                let start = old(self).pos();
                let d = old(self).data();
                let units_all = utf16_units(d.subrange(start, d.len() as int), little_endian);
                let rel = find_first(units_all, 0u16);
                let content = units_all.subrange(0, rel);
                if !valid_utf16(content) {
                    r == Err::<String, DecodeError>(
                        DecodeError::EncodingViolation { offset: start as usize },
                    ) && final(self).pos() == start
                } else {
                    r matches Ok(s) && s@ == decode_utf16(content) && final(self).pos() == (
                    if rel < units_all.len() {
                        start + 2 * rel + 2
                    } else {
                        d.len() as int
                    })
                }
            }),
    {
        let ghost d = self.data();
        let ghost start_g = self.pos();
        let ghost units_all = utf16_units(d.subrange(start_g, d.len() as int), little_endian);
        let start = self.pos;
        let total = (self.bytes.len() - self.pos) / 2;
        let mut t: usize = 0;
        let mut found = false;
        proof {
            assert(units_all.len() == total);
        }
        while t < total && !found
            invariant
                self.wf(),
                self == old(self),
                d == self.data(),
                start_g == self.pos(),
                start == self.pos,
                d.len() <= usize::MAX,
                units_all == utf16_units(d.subrange(start_g, d.len() as int), little_endian),
                total == units_all.len(),
                0 <= t <= total,
                forall|k: int| 0 <= k < t ==> units_all[k] != 0u16,
                found ==> t < total && units_all[t as int] == 0u16,
            decreases total - t + (if found {
                0int
            } else {
                1int
            }),
        {
            let b0 = self.bytes[start + 2 * t];
            let b1 = self.bytes[start + 2 * t + 1];
            let unit: u16 = if little_endian {
                (b0 as u16) + 256 * (b1 as u16)
            } else {
                256 * (b0 as u16) + (b1 as u16)
            };
            proof {
                let seg = d.subrange(start_g, d.len() as int);
                assert(seg[2 * t] == d[start_g + 2 * t]);
                assert(seg[2 * t + 1] == d[start_g + 2 * t + 1]);
                assert(units_all[t as int] == unit);
            }
            if unit == 0 {
                found = true;
            } else {
                t = t + 1;
            }
        }
        proof {
            if found {
                lemma_find_first_is(units_all, 0u16, t as int);
            } else {
                lemma_find_first_is(units_all, 0u16, total as int);
            }
        }
        let s = &self.bytes[start..start + 2 * t];
        let units = bytes_to_utf16(s, little_endian);
        proof {
            let rel = find_first(units_all, 0u16);
            assert forall|k: int| 0 <= k < t implies utf16_units(s@, little_endian)[k]
                == units_all[k] by {
                assert(s@[2 * k] == d[start_g + 2 * k]);
                assert(s@[2 * k + 1] == d[start_g + 2 * k + 1]);
                assert(d.subrange(start_g, d.len() as int)[2 * k] == d[start_g + 2 * k]);
                assert(d.subrange(start_g, d.len() as int)[2 * k + 1] == d[start_g + 2 * k + 1]);
            }
            assert(utf16_units(s@, little_endian) =~= units_all.subrange(0, rel));
        }
        match utf16_to_string(&units) {
            Some(text) => {
                if found {
                    self.pos = start + 2 * t + 2;
                } else {
                    self.pos = self.bytes.len();
                }
                Ok(text)
            },
            None => Err(DecodeError::EncodingViolation { offset: start }),
        }
    }
}

} // verus!
